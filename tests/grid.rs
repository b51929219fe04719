use particle_simulator::grid::{Grid, IVec3, MIN_CELL_SIZE};
use particle_simulator::particle::Sphere;
use particle_simulator::vector::{Vec3, WORLD_LIMIT};

fn v(x: i64, y: i64, z: i64) -> Vec3 {
    Vec3::new(x, y, z)
}

fn at(id: u64, x: i64, y: i64, z: i64) -> Sphere {
    Sphere::new(id, v(x, y, z), 150_000, v(0, 0, 0), v(0, 0, 0), false)
}

fn sorted(mut xs: Vec<usize>) -> Vec<usize> {
    xs.sort();
    xs
}

#[test]
fn cell_of_rounds_toward_negative_infinity() {
    assert_eq!(IVec3::from_position(v(-1, 299_999, 300_000), 300_000), IVec3::new(-1, 0, 1));
    assert_eq!(IVec3::from_position(v(-300_000, -300_001, 0), 300_000), IVec3::new(-1, -2, 0));
}

#[test]
fn world_faces_fall_in_bounded_cells() {
    let c = IVec3::from_position(v(WORLD_LIMIT, -WORLD_LIMIT, 0), MIN_CELL_SIZE);
    assert_eq!(c, IVec3::new(1_000_000, -1_000_000, 0));
    let c = IVec3::from_position(v(WORLD_LIMIT, -WORLD_LIMIT, 2_000_000), 300_000);
    assert_eq!(c, IVec3::new(333_333, -333_334, 6));
}

#[test]
fn neighbors_cover_adjacent_cells_only() {
    let mut g = Grid::new(300_000);
    g.insert(0, v(10, 10, 10));
    g.insert(1, v(310_000, 10, 10));
    g.insert(2, v(-290_000, -290_000, -290_000));
    g.insert(3, v(610_000, 10, 10));
    g.insert(4, v(20, 20, 20));
    let n = g.get_neighbors_in_cell(IVec3::new(0, 0, 0));
    assert_eq!(sorted(n), vec![0, 1, 2, 4]);
    let far = g.get_neighbors_in_cell(IVec3::new(2, 0, 0));
    assert_eq!(sorted(far), vec![1, 3]);
    assert_eq!(g.get_neighbors_in_cell(IVec3::new(50, 50, 50)), Vec::<usize>::new());
}

#[test]
fn same_cell_keeps_insertion_order() {
    let mut g = Grid::new(100_000);
    g.insert(5, v(1, 1, 1));
    g.insert(2, v(2, 2, 2));
    g.insert(9, v(99_999, 3, 3));
    assert_eq!(g.buckets.len(), 1);
    assert_eq!(g.buckets[0].members, vec![5, 2, 9]);
    assert_eq!(g.get_cell(v(99_999, 0, -1)), IVec3::new(0, 0, -1));
}

#[test]
fn rebuild_twice_gives_same_buckets() {
    let spheres = vec![at(0, 0, 0, 0), at(1, 400_000, 0, 0), at(2, 10, 10, 10), at(3, -900_000, 5, 5)];
    let mut g1 = Grid::new(300_000);
    g1.insert(7, v(1, 1, 1));
    g1.rebuild(&spheres);
    let mut g2 = Grid::new(300_000);
    g2.rebuild(&spheres);
    g2.rebuild(&spheres);
    assert_eq!(g1.buckets.len(), 3);
    assert_eq!(g1.buckets.len(), g2.buckets.len());
    for (a, b) in g1.buckets.iter().zip(g2.buckets.iter()) {
        assert_eq!(a.cell, b.cell);
        assert_eq!(a.members, b.members);
    }
    assert_eq!(g1.buckets[0].members, vec![0, 2]);
}

#[test]
fn clear_drops_everything() {
    let mut g = Grid::new(300_000);
    g.insert(0, v(0, 0, 0));
    g.clear();
    assert!(g.buckets.is_empty());
    assert!(g.get_neighbors_in_cell(IVec3::new(0, 0, 0)).is_empty());
}
