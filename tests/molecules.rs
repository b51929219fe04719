use particle_simulator::molecule::Molecule;
use particle_simulator::particle::Sphere;
use particle_simulator::vector::Vec3;

fn v(x: i64, y: i64, z: i64) -> Vec3 {
    Vec3::new(x, y, z)
}

fn at(id: u64, p: Vec3) -> Sphere {
    Sphere::new(id, p, 100_000, v(0, 0, 0), v(0, 0, 0), false)
}

fn gap(a: &Sphere, b: &Sphere) -> i64 {
    a.particle.position.sub(b.particle.position).norm()
}

#[test]
fn defaults_apply_for_missing_parameters() {
    let m = Molecule::new(None, None, None, None, None);
    assert_eq!(m.distance, 500_000);
    assert_eq!(m.strength, 10_000);
    assert_eq!(m.internal_pressure, 1_000);
    assert!(!m.links_enabled);
    assert!(!m.use_internal_pressure);
    let m = Molecule::new(Some(7), Some(true), Some(8), Some(9), Some(true));
    assert_eq!((m.distance, m.strength, m.internal_pressure), (7, 8, 9));
    assert!(m.links_enabled && m.use_internal_pressure);
}

#[test]
fn one_correction_moves_both_symmetrically() {
    let mut spheres = vec![at(0, v(0, 0, 0)), at(1, v(1_000_000, 0, 0))];
    let mut m = Molecule::new(None, None, None, None, None);
    m.add_sphere(0);
    m.add_sphere(1);
    m.maintain_distance(0, 1, &mut spheres);
    assert_eq!(spheres[0].particle.position, v(5_000, 0, 0));
    assert_eq!(spheres[1].particle.position, v(995_000, 0, 0));
}

#[test]
fn all_pairs_converge_toward_distance() {
    let mut spheres = vec![at(0, v(0, 0, 0)), at(1, v(2_000_000, 1_000_000, 0))];
    let mut m = Molecule::new(Some(500_000), Some(false), Some(100_000), None, None);
    m.add_sphere(0);
    m.add_sphere(1);
    let mut last_error = (gap(&spheres[0], &spheres[1]) - 500_000).abs();
    for _ in 0..60 {
        m.maintain_distance_all(&mut spheres);
        let error = (gap(&spheres[0], &spheres[1]) - 500_000).abs();
        if last_error > 50 {
            assert!(error < last_error);
        }
        last_error = error;
    }
    assert!(last_error <= 20);
}

#[test]
fn three_members_all_pairs_approach_distance() {
    let mut spheres = vec![at(0, v(0, 0, 0)), at(1, v(1_500_000, 0, 0)), at(2, v(0, 1_200_000, 0))];
    let mut m = Molecule::new(Some(1_000_000), Some(false), Some(100_000), None, None);
    for i in 0..3 {
        m.add_sphere(i);
    }
    for _ in 0..200 {
        m.maintain_distance_all(&mut spheres);
    }
    for (i, j) in [(0, 1), (0, 2), (1, 2)] {
        assert!((gap(&spheres[i], &spheres[j]) - 1_000_000).abs() <= 100);
    }
}

#[test]
fn links_only_touch_linked_members() {
    let mut spheres = vec![at(0, v(0, 0, 0)), at(1, v(1_000_000, 0, 0)), at(2, v(0, 3_000_000, 0))];
    let mut m = Molecule::new(None, Some(true), None, None, None);
    for i in 0..3 {
        m.add_sphere(i);
    }
    m.add_link(0, 1);
    m.maintain_distance_links(&mut spheres);
    assert_eq!(spheres[0].particle.position, v(5_000, 0, 0));
    assert_eq!(spheres[1].particle.position, v(995_000, 0, 0));
    assert_eq!(spheres[2].particle.position, v(0, 3_000_000, 0));
}

#[test]
fn coincident_members_are_left_alone() {
    let mut spheres = vec![at(0, v(3, 3, 3)), at(1, v(3, 3, 3))];
    let m = Molecule::new(None, None, None, None, None);
    m.maintain_distance(0, 1, &mut spheres);
    assert_eq!(spheres[0].particle.position, v(3, 3, 3));
    assert_eq!(spheres[1].particle.position, v(3, 3, 3));
}

#[test]
fn pressure_pushes_members_from_centroid() {
    let mut spheres = vec![at(0, v(-1_000_000, 0, 0)), at(1, v(1_000_000, 0, 0)), at(2, v(0, 9, 0))];
    let mut m = Molecule::new(None, None, None, Some(1_000), Some(true));
    m.add_sphere(0);
    m.add_sphere(1);
    m.add_internal_pressure(&mut spheres);
    assert_eq!(spheres[0].particle.position, v(-1_001_000, 0, 0));
    assert_eq!(spheres[1].particle.position, v(1_001_000, 0, 0));
    assert_eq!(spheres[2].particle.position, v(0, 9, 0));
}

#[test]
fn pressure_on_empty_group_does_nothing() {
    let mut spheres = vec![at(0, v(1, 2, 3))];
    let m = Molecule::new(None, None, None, None, Some(true));
    m.add_internal_pressure(&mut spheres);
    assert_eq!(spheres[0].particle.position, v(1, 2, 3));
}

#[test]
fn default_group_matches_new_without_parameters() {
    let m = Molecule::default();
    assert_eq!(m.distance, 500_000);
    assert_eq!(m.strength, 10_000);
    assert_eq!(m.internal_pressure, 1_000);
    assert!(m.spheres.is_empty() && m.links.is_empty());
}
