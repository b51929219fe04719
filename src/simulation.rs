use vstd::prelude::*;

use crate::container::{valid_size, ContainerShape, CubeContainer, SphereContainer};
use crate::grid::{
    cell_members, first_cells, lemma_bucket_members_rebuilt, lemma_neighborhood_of_rebuilt,
    neighborhood_of, Grid, IVec3,
};
use crate::molecule::{all_wf, same_ids, Molecule};
use crate::particle::{acc_sum, contact_push, negated, overlap_spec, valid_dt, Sphere};
use crate::vector::{
    floor_div, lemma_coord_below_root, lemma_div_within, lemma_mul_within, Vec3, ACC_LIMIT,
    RADIUS_LIMIT, WORLD_LIMIT,
};

use rand::Rng;

verus! {

/// Radius of the largest sphere the grid is sized for (0.15 world units).
pub const MAX_PARTICLE_RADIUS: i64 = 150_000;

/// Side of a grid cell: twice the largest radius.
pub const CELL_SIZE: i64 = 300_000;

/// Substeps per rendered frame.
pub const NUM_SUBSTEPS: i64 = 8;

/// Spheres spawned by one request for random particles.
pub const ADD_PARTICLE_NUM: usize = 10;

/// Radius of a randomly spawned sphere (0.15 world units).
pub const RANDOM_RADIUS: i64 = 150_000;

/// Downward acceleration of gravity (10 world units per second squared).
pub const GRAVITY: i64 = 10_000_000;

/// The spheres after resolving the overlap of spheres `i < j`; a pair whose
/// first index is not the smaller is left to the other's turn.
pub open spec fn pair_collided(sp: Seq<Sphere>, i: int, j: int) -> Seq<Sphere> {
    if 0 <= i < j < sp.len() && overlap_spec(sp[i], sp[j]) > 0 {
        let push = contact_push(sp[i], sp[j]);
        sp.update(i, sp[i].moved(push)).update(j, sp[j].moved(negated(push)))
    } else {
        sp
    }
}

/// Sphere `s` against the neighbours from the `k`-th on, in order.
pub open spec fn neighbor_pass(sp: Seq<Sphere>, s: int, nb: Seq<usize>, k: int) -> Seq<Sphere>
    decreases nb.len() - k,
{
    if k < 0 || k >= nb.len() {
        sp
    } else {
        neighbor_pass(pair_collided(sp, s, nb[k] as int), s, nb, k + 1)
    }
}

/// Sphere `s` against the containers from the `k`-th on, in order.
pub open spec fn container_pass(cs: Seq<ContainerShape>, sp: Seq<Sphere>, s: int, k: int) -> Seq<
    Sphere,
>
    decreases cs.len() - k,
{
    if k < 0 || k >= cs.len() || s < 0 || s >= sp.len() {
        sp
    } else {
        container_pass(cs, sp.update(s, cs[k].collided(sp[s])), s, k + 1)
    }
}

/// The members from the `k`-th on, each against every neighbour and then
/// every container.
pub open spec fn member_pass(
    cs: Seq<ContainerShape>,
    sp: Seq<Sphere>,
    members: Seq<usize>,
    nb: Seq<usize>,
    k: int,
) -> Seq<Sphere>
    decreases members.len() - k,
{
    if k < 0 || k >= members.len() {
        sp
    } else {
        let s = members[k] as int;
        member_pass(cs, container_pass(cs, neighbor_pass(sp, s, nb, 0), s, 0), members, nb, k + 1)
    }
}

/// Every bucket of the grid from the `k`-th on, in order.
pub open spec fn bucket_pass(cs: Seq<ContainerShape>, g: Grid, sp: Seq<Sphere>, k: int) -> Seq<Sphere>
    decreases g.buckets@.len() - k,
{
    if k < 0 || k >= g.buckets@.len() {
        sp
    } else {
        let b = g.buckets@[k];
        bucket_pass(cs, g, member_pass(cs, sp, b.members@, g.neighborhood(b.cell), 0), k + 1)
    }
}

/// The collision pass over a grid rebuilt from `start`, from the `k`-th
/// occupied cell on: each cell's members against their neighbourhood and
/// the containers.
pub open spec fn grid_pass_from(
    cs: Seq<ContainerShape>,
    cell_size: int,
    start: Seq<Sphere>,
    sp: Seq<Sphere>,
    k: int,
) -> Seq<Sphere>
    decreases first_cells(start, cell_size).len() - k,
{
    let cells = first_cells(start, cell_size);
    if k < 0 || k >= cells.len() {
        sp
    } else {
        let c = cells[k];
        grid_pass_from(
            cs,
            cell_size,
            start,
            member_pass(cs, sp, cell_members(start, cell_size, c), neighborhood_of(start, cell_size, c), 0),
            k + 1,
        )
    }
}

/// One broad- and narrow-phase pass over the spheres `sp`.
pub open spec fn grid_pass(cs: Seq<ContainerShape>, cell_size: int, sp: Seq<Sphere>) -> Seq<Sphere> {
    grid_pass_from(cs, cell_size, sp, sp, 0)
}

/// Every sphere with `force` added to its acceleration.
pub open spec fn forced_all(sp: Seq<Sphere>, force: Vec3) -> Seq<Sphere> {
    Seq::new(
        sp.len(),
        |i: int|
            Sphere {
                particle: crate::particle::Particle {
                    acceleration: acc_sum(sp[i].particle.acceleration, force),
                    ..sp[i].particle
                },
                ..sp[i]
            },
    )
}

/// Every sphere integrated by `dt`.
pub open spec fn integrated_all(sp: Seq<Sphere>, dt: int) -> Seq<Sphere> {
    Seq::new(sp.len(), |i: int| Sphere { particle: sp[i].particle.integrated(dt), ..sp[i] })
}

/// The spheres after one substep: collisions, relaxation, gravity, integration.
pub open spec fn substep_spheres(
    cs: Seq<ContainerShape>,
    ms: Seq<Molecule>,
    cell_size: int,
    sp: Seq<Sphere>,
    dt: int,
) -> Seq<Sphere> {
    integrated_all(
        forced_all(
            molecule_pass(ms, grid_pass(cs, cell_size, sp), 0),
            Vec3 { x: 0, y: -GRAVITY as i64, z: 0 },
        ),
        dt,
    )
}

/// The spheres after `n` substeps.
pub open spec fn substeps_spheres(
    cs: Seq<ContainerShape>,
    ms: Seq<Molecule>,
    cell_size: int,
    sp: Seq<Sphere>,
    dt: int,
    n: nat,
) -> Seq<Sphere>
    decreases n,
{
    if n == 0 {
        sp
    } else {
        substep_spheres(cs, ms, cell_size, substeps_spheres(cs, ms, cell_size, sp, dt, (n - 1) as nat), dt)
    }
}

/// Every sphere `i`, in order, against each later sphere and then every
/// container (the broad phase without the grid).
pub open spec fn brute_pass(cs: Seq<ContainerShape>, sp: Seq<Sphere>, i: int, j: int) -> Seq<Sphere> {
    brute_pass_upto(cs, sp, i, j, sp.len() as int)
}

/// `brute_pass` over the first `n` spheres.
pub open spec fn brute_pass_upto(cs: Seq<ContainerShape>, sp: Seq<Sphere>, i: int, j: int, n: int) -> Seq<
    Sphere,
>
    decreases n - i, n + 1 - j,
{
    if i < 0 || i >= n {
        sp
    } else if j <= i {
        brute_pass_upto(cs, sp, i, i + 1, n)
    } else if j >= n {
        brute_pass_upto(cs, container_pass(cs, sp, i, 0), i + 1, i + 2, n)
    } else {
        brute_pass_upto(cs, pair_collided(sp, i, j), i, j + 1, n)
    }
}

/// The spheres after each molecule from the `k`-th on relaxes: along its
/// links or over all member pairs, then with pressure if enabled.
pub open spec fn molecule_pass(ms: Seq<Molecule>, sp: Seq<Sphere>, k: int) -> Seq<Sphere>
    decreases ms.len() - k,
{
    if k < 0 || k >= ms.len() {
        sp
    } else {
        let m = ms[k];
        let relaxed = if m.links_enabled {
            m.relax_links(sp)
        } else {
            m.relax_all(sp)
        };
        let pressed = if m.use_internal_pressure {
            m.pressurized(relaxed)
        } else {
            relaxed
        };
        molecule_pass(ms, pressed, k + 1)
    }
}

/// Each sphere's identifier is its index.
pub open spec fn ids_are_indices(sp: Seq<Sphere>) -> bool {
    forall|i: int| 0 <= i < sp.len() ==> (#[trigger] sp[i]).particle.id == i
}

pub open spec fn all_containers_wf(cs: Seq<ContainerShape>) -> bool {
    forall|i: int| 0 <= i < cs.len() ==> (#[trigger] cs[i]).wf()
}

pub open spec fn all_molecules_wf(ms: Seq<Molecule>, n: int) -> bool {
    forall|i: int| 0 <= i < ms.len() ==> (#[trigger] ms[i]).wf() && ms[i].members_below(n)
}

/// Owns every sphere, container and molecule. A sphere is addressed by its
/// index in `spheres`, which is also its identifier (`wf` holds it so): it
/// is given when the sphere is added and never changes. The grid and the
/// molecules hold indices, and a pair of spheres is resolved from the side
/// of the smaller identifier.
#[derive(Debug)]
pub struct Simulation {
    pub grid: Grid,
    pub spheres: Vec<Sphere>,
    pub containers: Vec<ContainerShape>,
    pub molecules: Vec<Molecule>,
}

impl Simulation {
    pub open spec fn wf(self) -> bool {
        &&& self.grid.wf()
        &&& all_wf(self.spheres@)
        &&& ids_are_indices(self.spheres@)
        &&& all_containers_wf(self.containers@)
        &&& all_molecules_wf(self.molecules@, self.spheres@.len() as int)
    }

    /// An empty simulation whose grid cells are twice the largest radius.
    pub fn new() -> (r: Simulation)
        ensures
            r.wf(),
            r.grid.cell_size == CELL_SIZE,
            r.spheres@.len() == 0,
            r.containers@.len() == 0,
            r.molecules@.len() == 0,
    {
        Simulation {
            grid: Grid::new(CELL_SIZE),
            spheres: Vec::new(),
            containers: Vec::new(),
            molecules: Vec::new(),
        }
    }

    pub fn get_num_particles(&self) -> (r: usize)
        ensures
            r == self.spheres@.len(),
    {
        self.spheres.len()
    }

    /// Integrates every sphere by `dt`.
    pub fn step(&mut self, dt: i64)
        requires
            old(self).wf(),
            valid_dt(dt as int),
        ensures
            final(self).wf(),
            final(self).grid == old(self).grid,
            final(self).containers == old(self).containers,
            final(self).molecules == old(self).molecules,
            final(self).spheres@.len() == old(self).spheres@.len(),
            forall|i: int|
                0 <= i < old(self).spheres@.len() ==> #[trigger] final(self).spheres@[i] == (Sphere {
                    particle: old(self).spheres@[i].particle.integrated(dt as int),
                    ..old(self).spheres@[i]
                }),
    {
        let n = self.spheres.len();
        let mut i: usize = 0;
        while i < n
            invariant
                n == self.spheres@.len(),
                n == old(self).spheres@.len(),
                i <= n,
                valid_dt(dt as int),
                all_wf(self.spheres@),
                self.grid == old(self).grid,
                self.containers == old(self).containers,
                self.molecules == old(self).molecules,
                forall|k: int|
                    0 <= k < i ==> #[trigger] self.spheres@[k] == (Sphere {
                        particle: old(self).spheres@[k].particle.integrated(dt as int),
                        ..old(self).spheres@[k]
                    }),
                forall|k: int| i <= k < n ==> #[trigger] self.spheres@[k] == old(self).spheres@[k],
            decreases n - i,
        {
            let mut s = self.spheres[i];
            s.particle.update_position(dt);
            self.spheres[i] = s;
            i += 1;
        }
    }

    /// Adds `force` (an acceleration) to every sphere.
    pub fn add_force(&mut self, force: Vec3)
        requires
            old(self).wf(),
        ensures
            final(self).wf(),
            final(self).grid == old(self).grid,
            final(self).containers == old(self).containers,
            final(self).molecules == old(self).molecules,
            final(self).spheres@.len() == old(self).spheres@.len(),
            forall|i: int|
                0 <= i < old(self).spheres@.len() ==> #[trigger] final(self).spheres@[i] == (Sphere {
                    particle: crate::particle::Particle {
                        acceleration: crate::particle::acc_sum(
                            old(self).spheres@[i].particle.acceleration,
                            force,
                        ),
                        ..old(self).spheres@[i].particle
                    },
                    ..old(self).spheres@[i]
                }),
    {
        let n = self.spheres.len();
        let mut i: usize = 0;
        while i < n
            invariant
                n == self.spheres@.len(),
                n == old(self).spheres@.len(),
                i <= n,
                all_wf(self.spheres@),
                self.grid == old(self).grid,
                self.containers == old(self).containers,
                self.molecules == old(self).molecules,
                forall|k: int|
                    0 <= k < i ==> #[trigger] self.spheres@[k] == (Sphere {
                        particle: crate::particle::Particle {
                            acceleration: crate::particle::acc_sum(
                                old(self).spheres@[k].particle.acceleration,
                                force,
                            ),
                            ..old(self).spheres@[k].particle
                        },
                        ..old(self).spheres@[k]
                    }),
                forall|k: int| i <= k < n ==> #[trigger] self.spheres@[k] == old(self).spheres@[k],
            decreases n - i,
        {
            let mut s = self.spheres[i];
            s.particle.add_force(force);
            self.spheres[i] = s;
            i += 1;
        }
    }

    /// Registers a box container.
    pub fn create_cube_container(&mut self, position: Vec3, size: Vec3, forced_inside: bool)
        requires
            old(self).wf(),
            valid_size(size),
        ensures
            final(self).wf(),
            final(self).spheres == old(self).spheres,
            final(self).molecules == old(self).molecules,
            final(self).grid == old(self).grid,
            final(self).containers@.len() == old(self).containers@.len() + 1,
            final(self).containers@.drop_last() == old(self).containers@,
            final(self).containers@.last() matches ContainerShape::Cube(c) && c.center()
                == position.clamped_sum(Vec3 { x: 0, y: 0, z: 0 }) && c.extents() == size
                && c.is_forced_inside() == forced_inside,
    {
        let c = CubeContainer::new(position, size, forced_inside);
        self.containers.push(ContainerShape::Cube(c));
        proof {
            assert(self.containers@.drop_last() =~= old(self).containers@);
        }
    }

    /// Registers a ball container of the given radius.
    pub fn create_sphere_container(&mut self, position: Vec3, radius: i64, forced_inside: bool)
        requires
            old(self).wf(),
            0 <= radius <= WORLD_LIMIT,
        ensures
            final(self).wf(),
            final(self).spheres == old(self).spheres,
            final(self).molecules == old(self).molecules,
            final(self).grid == old(self).grid,
            final(self).containers@.len() == old(self).containers@.len() + 1,
            final(self).containers@.drop_last() == old(self).containers@,
            final(self).containers@.last() matches ContainerShape::Ball(b) && b.center()
                == position.clamped_sum(Vec3 { x: 0, y: 0, z: 0 }) && b.extents() == (Vec3 {
                x: (2 * radius) as i64,
                y: (2 * radius) as i64,
                z: (2 * radius) as i64,
            }) && b.radius() == radius && b.is_forced_inside() == forced_inside,
    {
        let d = 2 * radius;
        let b = SphereContainer::new(position, Vec3 { x: d, y: d, z: d }, forced_inside);
        self.containers.push(ContainerShape::Ball(b));
        proof {
            assert(self.containers@.drop_last() =~= old(self).containers@);
        }
    }

    /// Adds `sphere` to the simulation; its identifier becomes its index,
    /// which is returned.
    pub fn add_sphere_to_sim(&mut self, sphere: Sphere) -> (r: usize)
        requires
            old(self).wf(),
            sphere.wf(),
            old(self).spheres@.len() < usize::MAX,
        ensures
            final(self).wf(),
            r == old(self).spheres@.len(),
            final(self).spheres@ == old(self).spheres@.push(
                Sphere {
                    particle: crate::particle::Particle { id: r as u64, ..sphere.particle },
                    ..sphere
                },
            ),
            final(self).containers == old(self).containers,
            final(self).molecules == old(self).molecules,
            final(self).grid == old(self).grid,
    {
        let r = self.spheres.len();
        let mut s = sphere;
        s.particle.id = r as u64;
        self.spheres.push(s);
        proof {
            self.lemma_molecules_still_below(old(self).molecules@, old(self).spheres@.len() as int);
        }
        r
    }

    proof fn lemma_molecules_still_below(self, ms: Seq<Molecule>, n: int)
        requires
            all_molecules_wf(ms, n),
            n <= self.spheres@.len(),
            self.molecules@ == ms,
        ensures
            all_molecules_wf(ms, self.spheres@.len() as int),
    {
        assert forall|i: int| 0 <= i < ms.len() implies (#[trigger] ms[i]).wf() && ms[i].members_below(
            self.spheres@.len() as int,
        ) by {
            assert(ms[i].members_below(n));
        }
    }

    /// Creates a sphere, adds it, and returns its index.
    pub fn create_sphere(
        &mut self,
        position: Vec3,
        radius: i64,
        velocity: Vec3,
        acceleration: Vec3,
        fixed: bool,
    ) -> (r: usize)
        requires
            old(self).wf(),
            0 <= radius <= RADIUS_LIMIT,
            old(self).spheres@.len() < usize::MAX,
        ensures
            final(self).wf(),
            r == old(self).spheres@.len(),
            final(self).spheres@.len() == old(self).spheres@.len() + 1,
            final(self).spheres@.drop_last() == old(self).spheres@,
            final(self).spheres@[r as int].particle.id == r,
            final(self).spheres@[r as int].particle.position == position.clamped_sum(
                Vec3 { x: 0, y: 0, z: 0 },
            ),
            final(self).spheres@[r as int].particle.previous_position
                == final(self).spheres@[r as int].particle.position,
            final(self).spheres@[r as int].particle.velocity == velocity,
            final(self).spheres@[r as int].particle.acceleration == crate::particle::acc_sum(
                Vec3 { x: 0, y: 0, z: 0 },
                acceleration,
            ),
            final(self).spheres@[r as int].particle.fixed == fixed,
            final(self).spheres@[r as int].particle.updating_enabled,
            final(self).spheres@[r as int].radius == radius,
            final(self).containers == old(self).containers,
            final(self).molecules == old(self).molecules,
            final(self).grid == old(self).grid,
    {
        let id = self.spheres.len() as u64;
        let s = Sphere::new(id, position, radius, velocity, acceleration, fixed);
        let r = self.add_sphere_to_sim(s);
        proof {
            assert(self.spheres@.drop_last() =~= old(self).spheres@);
        }
        r
    }

    /// Turns integration of sphere `index` on or off (off while it is dragged).
    pub fn set_updating_enabled(&mut self, index: usize, enabled: bool)
        requires
            old(self).wf(),
            index < old(self).spheres@.len(),
        ensures
            final(self).wf(),
            final(self).spheres@ == old(self).spheres@.update(
                index as int,
                Sphere {
                    particle: crate::particle::Particle {
                        updating_enabled: enabled,
                        ..old(self).spheres@[index as int].particle
                    },
                    ..old(self).spheres@[index as int]
                },
            ),
            final(self).containers == old(self).containers,
            final(self).molecules == old(self).molecules,
            final(self).grid == old(self).grid,
    {
        let mut s = self.spheres[index];
        s.particle.set_updating_enabled(enabled);
        self.spheres[index] = s;
    }

    /// Puts the centre of sphere `index` at `position` (saturated into the world).
    pub fn set_sphere_position(&mut self, index: usize, position: Vec3)
        requires
            old(self).wf(),
            index < old(self).spheres@.len(),
        ensures
            final(self).wf(),
            final(self).spheres@ == old(self).spheres@.update(
                index as int,
                Sphere {
                    particle: crate::particle::Particle {
                        position: position.clamped_sum(Vec3 { x: 0, y: 0, z: 0 }),
                        ..old(self).spheres@[index as int].particle
                    },
                    ..old(self).spheres@[index as int]
                },
            ),
            final(self).containers == old(self).containers,
            final(self).molecules == old(self).molecules,
            final(self).grid == old(self).grid,
    {
        let mut s = self.spheres[index];
        s.set_position(position);
        self.spheres[index] = s;
    }
}

/// Over a grid rebuilt from `start`, the bucket pass is the grid pass that
/// the spheres alone determine.
proof fn lemma_bucket_pass_rebuilt(cs: Seq<ContainerShape>, g: Grid, start: Seq<Sphere>, sp: Seq<Sphere>, k: int)
    requires
        g.wf(),
        forall|d: IVec3| #[trigger] g.bucket(d) == cell_members(start, g.cell_size as int, d),
        g.cells() == first_cells(start, g.cell_size as int),
        0 <= k,
    ensures
        bucket_pass(cs, g, sp, k) == grid_pass_from(cs, g.cell_size as int, start, sp, k),
    decreases g.buckets@.len() - k,
{
    let size = g.cell_size as int;
    assert(g.cells().len() == g.buckets@.len());
    if k < g.buckets@.len() {
        let b = g.buckets@[k];
        assert(g.cells()[k] == b.cell);
        lemma_bucket_members_rebuilt(g, start, k);
        lemma_neighborhood_of_rebuilt(g, start, b.cell, 27);
        let next = member_pass(cs, sp, b.members@, g.neighborhood(b.cell), 0);
        lemma_bucket_pass_rebuilt(cs, g, start, next, k + 1);
    }
}

/// Resolves sphere `s` against each sphere of `nb` with a larger index.
fn collide_neighbors(spheres: &mut Vec<Sphere>, s: usize, nb: &Vec<usize>)
    requires
        all_wf(old(spheres)@),
    ensures
        same_ids(final(spheres)@, old(spheres)@),
        final(spheres)@.len() == old(spheres)@.len(),
        all_wf(final(spheres)@),
        final(spheres)@ == neighbor_pass(old(spheres)@, s as int, nb@, 0),
{
    let mut k: usize = 0;
    while k < nb.len()
        invariant
            all_wf(spheres@),
            spheres@.len() == old(spheres)@.len(),
            same_ids(spheres@, old(spheres)@),
            k <= nb@.len(),
            neighbor_pass(spheres@, s as int, nb@, k as int) == neighbor_pass(
                old(spheres)@,
                s as int,
                nb@,
                0,
            ),
        decreases nb@.len() - k,
    {
        let other = nb[k];
        collide_pair(spheres, s, other);
        k += 1;
    }
}

/// Resolves the overlap of spheres `i` and `j` when `i < j`.
fn collide_pair(spheres: &mut Vec<Sphere>, i: usize, j: usize)
    requires
        all_wf(old(spheres)@),
    ensures
        same_ids(final(spheres)@, old(spheres)@),
        final(spheres)@.len() == old(spheres)@.len(),
        all_wf(final(spheres)@),
        final(spheres)@ == pair_collided(old(spheres)@, i as int, j as int),
{
    if i < j && j < spheres.len() {
        let mut a = spheres[i];
        let mut b = spheres[j];
        a.collide_with_sphere(&mut b);
        spheres[i] = a;
        spheres[j] = b;
        proof {
            let sp = old(spheres)@;
            if overlap_spec(sp[i as int], sp[j as int]) <= 0 {
                assert(spheres@ =~= sp);
            }
        }
    }
}

/// Resolves sphere `s` against every container, in order.
fn collide_containers(spheres: &mut Vec<Sphere>, containers: &Vec<ContainerShape>, s: usize)
    requires
        all_wf(old(spheres)@),
        all_containers_wf(containers@),
    ensures
        same_ids(final(spheres)@, old(spheres)@),
        final(spheres)@.len() == old(spheres)@.len(),
        all_wf(final(spheres)@),
        final(spheres)@ == container_pass(containers@, old(spheres)@, s as int, 0),
{
    if s >= spheres.len() {
        return ;
    }
    let mut k: usize = 0;
    while k < containers.len()
        invariant
            all_wf(spheres@),
            spheres@.len() == old(spheres)@.len(),
            same_ids(spheres@, old(spheres)@),
            all_containers_wf(containers@),
            s < spheres@.len(),
            k <= containers@.len(),
            container_pass(containers@, spheres@, s as int, k as int) == container_pass(
                containers@,
                old(spheres)@,
                s as int,
                0,
            ),
        decreases containers@.len() - k,
    {
        let mut sphere = spheres[s];
        containers[k].collide_with(&mut sphere);
        spheres[s] = sphere;
        k += 1;
    }
}

/// Resolves each member against the neighbours and then the containers.
fn collide_members(
    spheres: &mut Vec<Sphere>,
    containers: &Vec<ContainerShape>,
    members: &Vec<usize>,
    nb: &Vec<usize>,
)
    requires
        all_wf(old(spheres)@),
        all_containers_wf(containers@),
    ensures
        same_ids(final(spheres)@, old(spheres)@),
        final(spheres)@.len() == old(spheres)@.len(),
        all_wf(final(spheres)@),
        final(spheres)@ == member_pass(containers@, old(spheres)@, members@, nb@, 0),
{
    let mut k: usize = 0;
    while k < members.len()
        invariant
            all_wf(spheres@),
            spheres@.len() == old(spheres)@.len(),
            same_ids(spheres@, old(spheres)@),
            all_containers_wf(containers@),
            k <= members@.len(),
            member_pass(containers@, spheres@, members@, nb@, k as int) == member_pass(
                containers@,
                old(spheres)@,
                members@,
                nb@,
                0,
            ),
        decreases members@.len() - k,
    {
        let s = members[k];
        collide_neighbors(spheres, s, nb);
        collide_containers(spheres, containers, s);
        k += 1;
    }
}

impl Simulation {
    /// One broad- and narrow-phase pass: rebuilds the grid from the current
    /// positions, then for each occupied cell, in bucket order, resolves each
    /// of its spheres against every sphere of the surrounding 3x3x3 block
    /// with a larger index, and then against every container.
    pub fn check_grid_collisions(&mut self)
        requires
            old(self).wf(),
        ensures
            final(self).spheres@.len() == old(self).spheres@.len(),
            final(self).wf(),
            final(self).grid.cell_size == old(self).grid.cell_size,
            forall|c: IVec3|
                #[trigger] final(self).grid.bucket(c) == cell_members(
                    old(self).spheres@,
                    old(self).grid.cell_size as int,
                    c,
                ),
            final(self).grid.cells() == first_cells(old(self).spheres@, old(self).grid.cell_size as int),
            final(self).spheres@ == bucket_pass(
                old(self).containers@,
                final(self).grid,
                old(self).spheres@,
                0,
            ),
            final(self).spheres@ == grid_pass(
                old(self).containers@,
                old(self).grid.cell_size as int,
                old(self).spheres@,
            ),
            final(self).containers == old(self).containers,
            final(self).molecules == old(self).molecules,
    {
        self.grid.rebuild(&self.spheres);
        let ghost start = self.spheres@;
        let n = self.grid.buckets.len();
        let mut k: usize = 0;
        while k < n
            invariant
                self.grid.wf(),
                n == self.grid.buckets@.len(),
                all_wf(self.spheres@),
                same_ids(self.spheres@, old(self).spheres@),
                all_containers_wf(self.containers@),
                self.containers == old(self).containers,
                self.molecules == old(self).molecules,
                self.spheres@.len() == old(self).spheres@.len(),
                self.grid.cell_size == old(self).grid.cell_size,
                forall|c: IVec3|
                    #[trigger] self.grid.bucket(c) == cell_members(
                        old(self).spheres@,
                        old(self).grid.cell_size as int,
                        c,
                    ),
                self.grid.cells() == first_cells(old(self).spheres@, old(self).grid.cell_size as int),
                k <= n,
                bucket_pass(self.containers@, self.grid, self.spheres@, k as int) == bucket_pass(
                    self.containers@,
                    self.grid,
                    start,
                    0,
                ),
            decreases n - k,
        {
            let nb = self.grid.get_neighbors_in_cell(self.grid.buckets[k].cell);
            collide_members(&mut self.spheres, &self.containers, &self.grid.buckets[k].members, &nb);
            k += 1;
        }
        proof {
            assert(all_molecules_wf(self.molecules@, self.spheres@.len() as int));
            lemma_bucket_pass_rebuilt(self.containers@, self.grid, start, start, 0);
        }
    }

    /// The broad phase without the grid: each sphere against every later
    /// sphere, then against every container.
    pub fn check_collisions(&mut self)
        requires
            old(self).wf(),
        ensures
            final(self).spheres@.len() == old(self).spheres@.len(),
            final(self).wf(),
            final(self).spheres@ == brute_pass(old(self).containers@, old(self).spheres@, 0, 1),
            final(self).containers == old(self).containers,
            final(self).molecules == old(self).molecules,
            final(self).grid == old(self).grid,
    {
        let n = self.spheres.len();
        let mut i: usize = 0;
        while i < n
            invariant
                n == self.spheres@.len(),
                all_wf(self.spheres@),
                same_ids(self.spheres@, old(self).spheres@),
                all_containers_wf(self.containers@),
                self.containers == old(self).containers,
                self.molecules == old(self).molecules,
                self.grid == old(self).grid,
                i <= n,
                brute_pass_upto(self.containers@, self.spheres@, i as int, i + 1, n as int) == brute_pass(
                    old(self).containers@,
                    old(self).spheres@,
                    0,
                    1,
                ),
            decreases n - i,
        {
            let mut j: usize = i + 1;
            while j < n
                invariant
                    n == self.spheres@.len(),
                    all_wf(self.spheres@),
                    same_ids(self.spheres@, old(self).spheres@),
                    all_containers_wf(self.containers@),
                    self.containers == old(self).containers,
                    self.molecules == old(self).molecules,
                    self.grid == old(self).grid,
                    i < n,
                    i < j <= n,
                    brute_pass_upto(self.containers@, self.spheres@, i as int, j as int, n as int)
                        == brute_pass(
                        old(self).containers@,
                        old(self).spheres@,
                        0,
                        1,
                    ),
                decreases n - j,
            {
                collide_pair(&mut self.spheres, i, j);
                j += 1;
            }
            collide_containers(&mut self.spheres, &self.containers, i);
            i += 1;
        }
        proof {
            assert(all_molecules_wf(self.molecules@, self.spheres@.len() as int));
        }
    }

    /// Relaxes every molecule in order: along its links when links are
    /// enabled, over all member pairs otherwise; then applies its internal
    /// pressure when that is enabled.
    pub fn maintain_molecules(&mut self)
        requires
            old(self).wf(),
        ensures
            final(self).spheres@.len() == old(self).spheres@.len(),
            final(self).wf(),
            final(self).spheres@ == molecule_pass(old(self).molecules@, old(self).spheres@, 0),
            final(self).containers == old(self).containers,
            final(self).molecules == old(self).molecules,
            final(self).grid == old(self).grid,
    {
        let n = self.molecules.len();
        let mut k: usize = 0;
        while k < n
            invariant
                n == self.molecules@.len(),
                all_wf(self.spheres@),
                same_ids(self.spheres@, old(self).spheres@),
                self.spheres@.len() == old(self).spheres@.len(),
                all_molecules_wf(self.molecules@, self.spheres@.len() as int),
                self.containers == old(self).containers,
                self.molecules == old(self).molecules,
                self.grid == old(self).grid,
                k <= n,
                molecule_pass(self.molecules@, self.spheres@, k as int) == molecule_pass(
                    old(self).molecules@,
                    old(self).spheres@,
                    0,
                ),
            decreases n - k,
        {
            let m = &self.molecules[k];
            assert(m.wf() && m.members_below(self.spheres@.len() as int));
            if m.links_enabled {
                m.maintain_distance_links(&mut self.spheres);
            } else {
                m.maintain_distance_all(&mut self.spheres);
            }
            if m.use_internal_pressure {
                m.add_internal_pressure(&mut self.spheres);
            }
            k += 1;
        }
    }

    /// One substep: collisions, constraint relaxation, gravity, integration.
    pub fn substep(&mut self, dt: i64)
        requires
            old(self).wf(),
            valid_dt(dt as int),
        ensures
            final(self).wf(),
            final(self).spheres@ == substep_spheres(
                old(self).containers@,
                old(self).molecules@,
                old(self).grid.cell_size as int,
                old(self).spheres@,
                dt as int,
            ),
            final(self).spheres@.len() == old(self).spheres@.len(),
            final(self).grid.cell_size == old(self).grid.cell_size,
            final(self).containers == old(self).containers,
            final(self).molecules == old(self).molecules,
    {
        self.check_grid_collisions();
        self.maintain_molecules();
        let ghost relaxed = self.spheres@;
        self.add_force(Vec3 { x: 0, y: -GRAVITY, z: 0 });
        proof {
            assert(self.spheres@ =~= forced_all(relaxed, Vec3 { x: 0, y: -GRAVITY as i64, z: 0 }));
        }
        let ghost pushed = self.spheres@;
        self.step(dt);
        proof {
            assert(self.spheres@ =~= integrated_all(pushed, dt as int));
        }
    }

    /// One rendered frame: `substeps` substeps of `elapsed / substeps` each.
    /// Returns the substep length used, or `None` (and changes nothing) when
    /// that length is zero or larger than the longest step.
    pub fn advance_frame(&mut self, elapsed: i64, substeps: i64) -> (r: Option<i64>)
        requires
            old(self).wf(),
            substeps > 0,
        ensures
            final(self).wf(),
            r == (if valid_dt(elapsed as int / substeps as int) {
                Some((elapsed as int / substeps as int) as i64)
            } else {
                None::<i64>
            }),
            r is None ==> final(self).spheres == old(self).spheres,
            r matches Some(dt) ==> final(self).spheres@ == substeps_spheres(
                old(self).containers@,
                old(self).molecules@,
                old(self).grid.cell_size as int,
                old(self).spheres@,
                dt as int,
                substeps as nat,
            ),
            final(self).spheres@.len() == old(self).spheres@.len(),
            final(self).containers == old(self).containers,
            final(self).molecules == old(self).molecules,
    {
        if elapsed <= 0 {
            proof {
                vstd::arithmetic::div_mod::lemma_div_is_ordered(elapsed as int, 0, substeps as int);
                assert(0int / (substeps as int) == 0);
            }
            return None;
        }
        let dt = elapsed / substeps;
        if dt <= 0 || dt > crate::particle::MAX_DT {
            return None;
        }
        let mut k: i64 = 0;
        while k < substeps
            invariant
                self.wf(),
                valid_dt(dt as int),
                0 <= k <= substeps,
                self.spheres@.len() == old(self).spheres@.len(),
                self.containers == old(self).containers,
                self.molecules == old(self).molecules,
                self.grid.cell_size == old(self).grid.cell_size,
                self.spheres@ == substeps_spheres(
                    old(self).containers@,
                    old(self).molecules@,
                    old(self).grid.cell_size as int,
                    old(self).spheres@,
                    dt as int,
                    k as nat,
                ),
            decreases substeps - k,
        {
            self.substep(dt);
            k += 1;
        }
        Some(dt)
    }
}

/// Relies on `rand::Rng::gen_range` over `rand::thread_rng()`: a value drawn
/// uniformly from `[0, range)`; it panics on an empty range, which `requires`
/// leaves out.
#[verifier::external_body]
fn random_below(range: i64) -> (r: i64)
    requires
        range > 0,
    ensures
        0 <= r < range,
{
    rand::thread_rng().gen_range(0..range)
}

/// The pull toward the origin on a sphere at `p`: the unit vector toward the
/// origin times `strength * NUM_SUBSTEPS`; none at the origin itself.
pub open spec fn attraction(p: Vec3, strength: int) -> Vec3 {
    let d = p.norm_spec();
    if d == 0 {
        Vec3 { x: 0, y: 0, z: 0 }
    } else {
        Vec3 {
            x: ((-p.x) * strength * NUM_SUBSTEPS / d) as i64,
            y: ((-p.y) * strength * NUM_SUBSTEPS / d) as i64,
            z: ((-p.z) * strength * NUM_SUBSTEPS / d) as i64,
        }
    }
}

/// Upward acceleration that cancels gravity over a frame's substeps.
pub open spec fn counter_gravity() -> Vec3 {
    Vec3 { x: 0, y: (GRAVITY * NUM_SUBSTEPS) as i64, z: 0 }
}

/// The particle after the attraction forces of one frame.
pub open spec fn attracted(s: Sphere, strength: int) -> Sphere {
    Sphere {
        particle: crate::particle::Particle {
            acceleration: acc_sum(
                acc_sum(s.particle.acceleration, counter_gravity()),
                attraction(s.particle.position, strength),
            ),
            ..s.particle
        },
        ..s
    }
}

fn attraction_step(c: i64, strength: i64, d: i64) -> (r: i64)
    requires
        0 < d < 1_099_511_627_776,
        -d <= c <= d,
        0 <= strength <= ACC_LIMIT,
    ensures
        r == ((-c) * strength * NUM_SUBSTEPS) / d as int,
{
    proof {
        lemma_mul_within(-c, strength * NUM_SUBSTEPS, d as int, ACC_LIMIT * NUM_SUBSTEPS);
        lemma_mul_within(d as int, ACC_LIMIT * NUM_SUBSTEPS, 1_099_511_627_776, ACC_LIMIT * NUM_SUBSTEPS);
        assert((-c) * strength * NUM_SUBSTEPS == (-c) * (strength * NUM_SUBSTEPS)) by (nonlinear_arith);
        assert(d * (ACC_LIMIT * NUM_SUBSTEPS) >= 0) by (nonlinear_arith)
            requires
                d > 0,
        ;
        lemma_div_within((-c) * strength * NUM_SUBSTEPS, d as int, ACC_LIMIT * NUM_SUBSTEPS);
    }
    floor_div(-(c as i128) * (strength as i128 * NUM_SUBSTEPS as i128), d as i128) as i64
}

impl Simulation {
    /// Pulls every sphere toward the origin with `strength`, and cancels
    /// gravity, for the substeps of one frame.
    pub fn attract_particles_to_origin(&mut self, strength: i64)
        requires
            old(self).wf(),
            0 <= strength <= ACC_LIMIT,
        ensures
            final(self).wf(),
            final(self).spheres@.len() == old(self).spheres@.len(),
            forall|i: int|
                0 <= i < old(self).spheres@.len() ==> #[trigger] final(self).spheres@[i] == attracted(
                    old(self).spheres@[i],
                    strength as int,
                ),
            final(self).containers == old(self).containers,
            final(self).molecules == old(self).molecules,
            final(self).grid == old(self).grid,
    {
        let n = self.spheres.len();
        let mut i: usize = 0;
        while i < n
            invariant
                n == self.spheres@.len(),
                n == old(self).spheres@.len(),
                i <= n,
                0 <= strength <= ACC_LIMIT,
                all_wf(self.spheres@),
                self.grid == old(self).grid,
                self.containers == old(self).containers,
                self.molecules == old(self).molecules,
                forall|k: int|
                    0 <= k < i ==> #[trigger] self.spheres@[k] == attracted(old(self).spheres@[k], strength as int),
                forall|k: int| i <= k < n ==> #[trigger] self.spheres@[k] == old(self).spheres@[k],
            decreases n - i,
        {
            let mut s = self.spheres[i];
            s.particle.add_force(Vec3 { x: 0, y: GRAVITY * NUM_SUBSTEPS, z: 0 });
            let p = s.particle.position;
            let d = p.norm();
            let pull = if d == 0 {
                Vec3::zero()
            } else {
                proof {
                    let (ax, ay, az) = (p.x as int, p.y as int, p.z as int);
                    assert(ax * ax >= 0 && ay * ay >= 0 && az * az >= 0) by (nonlinear_arith);
                    lemma_coord_below_root(ax, d as int);
                    lemma_coord_below_root(ay, d as int);
                    lemma_coord_below_root(az, d as int);
                }
                Vec3 {
                    x: attraction_step(p.x, strength, d),
                    y: attraction_step(p.y, strength, d),
                    z: attraction_step(p.z, strength, d),
                }
            };
            s.particle.add_force(pull);
            self.spheres[i] = s;
            i += 1;
        }
    }

    /// Spawns `ADD_PARTICLE_NUM` free spheres of radius 0.15 at rest, each
    /// coordinate drawn at random from `[-range / 2, range - range / 2)`; with
    /// a range of 0 they all appear at the origin, and nothing is drawn.
    pub fn generate_random_particles(&mut self, range: i64)
        requires
            old(self).wf(),
            0 <= range <= 2 * WORLD_LIMIT,
            old(self).spheres@.len() + ADD_PARTICLE_NUM < usize::MAX,
        ensures
            final(self).wf(),
            final(self).spheres@.len() == old(self).spheres@.len() + ADD_PARTICLE_NUM,
            final(self).spheres@.subrange(0, old(self).spheres@.len() as int) == old(self).spheres@,
            forall|i: int|
                old(self).spheres@.len() <= i < final(self).spheres@.len() ==> {
                    &&& spawned(#[trigger] final(self).spheres@[i], i, range as int)
                    &&& final(self).spheres@[i].particle.acceleration == Vec3 { x: 0, y: 0, z: 0 }
                },
            final(self).containers == old(self).containers,
            final(self).molecules == old(self).molecules,
            final(self).grid == old(self).grid,
    {
        let mut k: usize = 0;
        while k < ADD_PARTICLE_NUM
            invariant
                self.wf(),
                0 <= range <= 2 * WORLD_LIMIT,
                k <= ADD_PARTICLE_NUM,
                self.spheres@.len() == old(self).spheres@.len() + k,
                old(self).spheres@.len() + ADD_PARTICLE_NUM < usize::MAX,
                self.spheres@.subrange(0, old(self).spheres@.len() as int) == old(self).spheres@,
                forall|i: int|
                    old(self).spheres@.len() <= i < self.spheres@.len() ==> {
                        &&& spawned(#[trigger] self.spheres@[i], i, range as int)
                        &&& self.spheres@[i].particle.acceleration == Vec3 { x: 0, y: 0, z: 0 }
                    },
                self.containers == old(self).containers,
                self.molecules == old(self).molecules,
                self.grid == old(self).grid,
            decreases ADD_PARTICLE_NUM - k,
        {
            let position = Vec3 { x: draw_coord(range), y: draw_coord(range), z: draw_coord(range) };
            let ghost before = self.spheres@;
            self.create_sphere(position, RANDOM_RADIUS, Vec3::zero(), Vec3::zero(), false);
            proof {
                assert(self.spheres@.subrange(0, old(self).spheres@.len() as int) =~= before.subrange(
                    0,
                    old(self).spheres@.len() as int,
                ));
                assert forall|i: int|
                    old(self).spheres@.len() <= i < self.spheres@.len() - 1 implies #[trigger] self.spheres@[i]
                    == before[i] by {
                    assert(self.spheres@.drop_last()[i] == before[i]);
                }
            }
            k += 1;
        }
    }
}

/// Whether `c` is a coordinate a spawn over `range` can give: one in
/// `[-(range / 2), range - range / 2)`, or the origin for a range of 0.
pub open spec fn spawn_coord(c: int, range: int) -> bool {
    if range == 0 {
        c == 0
    } else {
        -(range / 2) <= c < range - range / 2
    }
}

/// A sphere spawned at index `i` over `range`: radius 0.15, free, at rest,
/// at a position that a spawn over `range` can give (its acceleration aside).
pub open spec fn spawned(s: Sphere, i: int, range: int) -> bool {
    &&& s.radius == RANDOM_RADIUS
    &&& !s.particle.fixed
    &&& s.particle.updating_enabled
    &&& s.particle.id == i
    &&& s.particle.velocity == Vec3 { x: 0, y: 0, z: 0 }
    &&& s.particle.previous_position == s.particle.position
    &&& spawn_coord(s.particle.position.x as int, range)
    &&& spawn_coord(s.particle.position.y as int, range)
    &&& spawn_coord(s.particle.position.z as int, range)
}

/// One spawn coordinate: a random draw shifted to centre on the origin, or
/// the origin itself for a range of 0.
fn draw_coord(range: i64) -> (r: i64)
    requires
        0 <= range <= 2 * WORLD_LIMIT,
    ensures
        spawn_coord(r as int, range as int),
{
    if range == 0 {
        0
    } else {
        random_below(range) - range / 2
    }
}

/// One thing that can happen to a sphere in a substep: integration, a
/// direct displacement, a container collision, or an overlap resolution
/// against another sphere (as the first or the second of the pair).
#[derive(Clone, Copy, Debug)]
pub enum Disturbance {
    Integrate(i64),
    Move(Vec3),
    Contain(ContainerShape),
    ContactFirst(Sphere),
    ContactSecond(Sphere),
}

pub open spec fn disturbed(s: Sphere, d: Disturbance) -> Sphere {
    match d {
        Disturbance::Integrate(dt) => Sphere { particle: s.particle.integrated(dt as int), ..s },
        Disturbance::Move(v) => s.moved(v),
        Disturbance::Contain(c) => c.collided(s),
        Disturbance::ContactFirst(o) => if overlap_spec(s, o) > 0 {
            s.moved(contact_push(s, o))
        } else {
            s
        },
        Disturbance::ContactSecond(o) => if overlap_spec(o, s) > 0 {
            s.moved(negated(contact_push(o, s)))
        } else {
            s
        },
    }
}

/// The sphere after the disturbances, in order.
pub open spec fn disturbed_all(s: Sphere, ds: Seq<Disturbance>) -> Sphere
    decreases ds.len(),
{
    if ds.len() == 0 {
        s
    } else {
        disturbed(disturbed_all(s, ds.drop_last()), ds.last())
    }
}

/// A fixed sphere keeps its position (and stays fixed) through any sequence
/// of integrations, displacements, container collisions and overlap
/// resolutions.
pub proof fn lemma_fixed_sphere_stays(s: Sphere, ds: Seq<Disturbance>)
    requires
        s.particle.fixed,
    ensures
        disturbed_all(s, ds).particle.position == s.particle.position,
        disturbed_all(s, ds).particle.fixed,
    decreases ds.len(),
{
    if ds.len() > 0 {
        lemma_fixed_sphere_stays(s, ds.drop_last());
    }
}

} // verus!
