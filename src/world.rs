use vstd::prelude::*;

use crate::container::{valid_size, Container, ContainerShape, CubeContainer, SphereContainer};
use crate::molecule::{valid_distance, valid_fraction, Molecule};
use crate::particle::{acc_sum, Particle, Sphere};
use crate::simulation::{all_molecules_wf, Simulation};
use crate::vector::{Vec3, RADIUS_LIMIT, WORLD_LIMIT};

verus! {

/// Why a world description was refused.
#[derive(Clone, Copy, Debug, PartialEq, Eq, Structural)]
pub enum LoadError {
    /// A required field is absent.
    MissingField,
    /// A container's type is neither `cube` nor `sphere`.
    UnknownContainerType,
    /// A value lies outside what the model admits (a negative or huge radius,
    /// size, distance, or a fraction outside `[0, 1]`).
    InvalidValue,
    /// A link names a sphere index beyond the molecule's spheres.
    LinkOutOfRange,
}

/// A sphere as a world description gives it.
#[derive(Clone, Copy, Debug)]
pub struct SphereDesc {
    pub position: Option<Vec3>,
    pub radius: Option<i64>,
    pub velocity: Option<Vec3>,
    pub acceleration: Option<Vec3>,
    pub fixed: Option<bool>,
}

/// A container as a world description gives it: `kind` is `cube` (with
/// `size`) or `sphere` (with `radius`).
#[derive(Clone, Debug)]
pub struct ContainerDesc {
    pub kind: Option<String>,
    pub position: Option<Vec3>,
    pub size: Option<Vec3>,
    pub radius: Option<i64>,
    pub forced_inside: Option<bool>,
}

/// A molecule as a world description gives it; `links` are pairs of indices
/// into its `spheres`, and `offset` moves every member.
#[derive(Clone, Debug)]
pub struct MoleculeDesc {
    pub distance: Option<i64>,
    pub links_enabled: Option<bool>,
    pub strength: Option<i64>,
    pub internal_pressure: Option<i64>,
    pub spheres: Option<Vec<SphereDesc>>,
    pub links: Option<Vec<(u64, u64)>>,
    pub offset: Option<Vec3>,
}

/// A whole world: containers, free spheres and molecules.
#[derive(Clone, Debug)]
pub struct WorldDesc {
    pub containers: Option<Vec<ContainerDesc>>,
    pub spheres: Option<Vec<SphereDesc>>,
    pub molecules: Option<Vec<MoleculeDesc>>,
}

pub open spec fn vec_or_zero(v: Option<Vec3>) -> Vec3 {
    match v {
        Some(v) => v,
        None => Vec3 { x: 0, y: 0, z: 0 },
    }
}

pub open spec fn sphere_desc_error(d: SphereDesc) -> Option<LoadError> {
    if d.position is None || d.radius is None {
        Some(LoadError::MissingField)
    } else if !(0 <= d.radius->0 <= RADIUS_LIMIT) {
        Some(LoadError::InvalidValue)
    } else {
        None
    }
}

/// The first error among the sphere descriptions from the `k`-th on.
pub open spec fn spheres_error(ds: Seq<SphereDesc>, k: int) -> Option<LoadError>
    decreases ds.len() - k,
{
    if k < 0 || k >= ds.len() {
        None
    } else if sphere_desc_error(ds[k]) is Some {
        sphere_desc_error(ds[k])
    } else {
        spheres_error(ds, k + 1)
    }
}

/// The sphere a valid description gives, with identifier `id`.
pub open spec fn desc_sphere(d: SphereDesc, id: u64) -> Sphere {
    let p = d.position->0.clamped_sum(Vec3 { x: 0, y: 0, z: 0 });
    Sphere {
        particle: Particle {
            id,
            updating_enabled: true,
            previous_position: p,
            position: p,
            velocity: vec_or_zero(d.velocity),
            acceleration: acc_sum(Vec3 { x: 0, y: 0, z: 0 }, vec_or_zero(d.acceleration)),
            fixed: match d.fixed {
                Some(f) => f,
                None => false,
            },
        },
        radius: d.radius->0,
    }
}

pub open spec fn container_desc_error(d: ContainerDesc) -> Option<LoadError> {
    if d.kind is None || d.position is None {
        Some(LoadError::MissingField)
    } else if d.kind->0@ == "cube"@ {
        if d.size is None {
            Some(LoadError::MissingField)
        } else if !valid_size(d.size->0) {
            Some(LoadError::InvalidValue)
        } else {
            None
        }
    } else if d.kind->0@ == "sphere"@ {
        if d.radius is None {
            Some(LoadError::MissingField)
        } else if !(0 <= d.radius->0 <= WORLD_LIMIT) {
            Some(LoadError::InvalidValue)
        } else {
            None
        }
    } else {
        Some(LoadError::UnknownContainerType)
    }
}

/// The first error among the container descriptions from the `k`-th on.
pub open spec fn containers_error(ds: Seq<ContainerDesc>, k: int) -> Option<LoadError>
    decreases ds.len() - k,
{
    if k < 0 || k >= ds.len() {
        None
    } else if container_desc_error(ds[k]) is Some {
        container_desc_error(ds[k])
    } else {
        containers_error(ds, k + 1)
    }
}

/// The container a valid description gives; a ball's size is its diameter.
pub open spec fn desc_container(d: ContainerDesc) -> ContainerShape {
    let base = Container {
        position: d.position->0.clamped_sum(Vec3 { x: 0, y: 0, z: 0 }),
        forced_inside: match d.forced_inside {
            Some(f) => f,
            None => false,
        },
    };
    if d.kind->0@ == "cube"@ {
        ContainerShape::Cube(CubeContainer { container: base, size: d.size->0 })
    } else {
        let r = d.radius->0;
        ContainerShape::Ball(
            SphereContainer {
                container: base,
                size: Vec3 { x: (2 * r) as i64, y: (2 * r) as i64, z: (2 * r) as i64 },
            },
        )
    }
}

/// Whether every link from the `k`-th on names one of `n` spheres.
pub open spec fn links_in_range(links: Seq<(u64, u64)>, n: int, k: int) -> bool
    decreases links.len() - k,
{
    if k < 0 || k >= links.len() {
        true
    } else {
        links[k].0 < n && links[k].1 < n && links_in_range(links, n, k + 1)
    }
}

pub open spec fn molecule_desc_error(d: MoleculeDesc) -> Option<LoadError> {
    if d.distance is None || d.links_enabled is None || d.strength is None || d.spheres is None
        || d.links is None {
        Some(LoadError::MissingField)
    } else if !valid_distance(d.distance->0 as int) || !valid_fraction(d.strength->0 as int) || (
    d.internal_pressure is Some && !valid_fraction(d.internal_pressure->0 as int)) {
        Some(LoadError::InvalidValue)
    } else if spheres_error(d.spheres->0@, 0) is Some {
        spheres_error(d.spheres->0@, 0)
    } else if !links_in_range(d.links->0@, d.spheres->0@.len() as int, 0) {
        Some(LoadError::LinkOutOfRange)
    } else {
        None
    }
}

/// The first error among the molecule descriptions from the `k`-th on.
pub open spec fn molecules_error(ds: Seq<MoleculeDesc>, k: int) -> Option<LoadError>
    decreases ds.len() - k,
{
    if k < 0 || k >= ds.len() {
        None
    } else if molecule_desc_error(ds[k]) is Some {
        molecule_desc_error(ds[k])
    } else {
        molecules_error(ds, k + 1)
    }
}

/// The first error of a world description: missing arrays, then containers,
/// spheres and molecules in order.
pub open spec fn world_error(w: WorldDesc) -> Option<LoadError> {
    if w.containers is None || w.spheres is None || w.molecules is None {
        Some(LoadError::MissingField)
    } else if containers_error(w.containers->0@, 0) is Some {
        containers_error(w.containers->0@, 0)
    } else if spheres_error(w.spheres->0@, 0) is Some {
        spheres_error(w.spheres->0@, 0)
    } else {
        molecules_error(w.molecules->0@, 0)
    }
}

/// The member of a molecule: a described sphere moved by `offset` together
/// with its previous position.
pub open spec fn offset_sphere(s: Sphere, offset: Vec3) -> Sphere {
    Sphere {
        particle: Particle {
            position: s.particle.position.clamped_sum(offset),
            previous_position: s.particle.previous_position.clamped_sum(offset),
            ..s.particle
        },
        ..s
    }
}

/// The spheres from index `first` on are those the molecule description
/// gives, moved by `shift`.
pub open spec fn spheres_placed(sp: Seq<Sphere>, d: MoleculeDesc, first: int, shift: Vec3) -> bool {
    forall|i: int|
        0 <= i < d.spheres->0@.len() ==> #[trigger] sp[first + i] == offset_sphere(
            desc_sphere(d.spheres->0@[i], (first + i) as u64),
            shift,
        )
}

/// The molecule a valid description gives when its spheres start at index
/// `first`: its parameters, consecutive members, and links shifted to them.
pub open spec fn molecule_matches(m: Molecule, d: MoleculeDesc, first: int) -> bool {
    &&& m.distance == d.distance->0
    &&& m.strength == d.strength->0
    &&& m.links_enabled == d.links_enabled->0
    &&& m.use_internal_pressure == d.internal_pressure is Some
    &&& d.internal_pressure is Some ==> m.internal_pressure == d.internal_pressure->0
    &&& m.spheres@.len() == d.spheres->0@.len()
    &&& forall|i: int| 0 <= i < m.spheres@.len() ==> #[trigger] m.spheres@[i] == (first + i) as usize
    &&& m.links@.len() == d.links->0@.len()
    &&& forall|k: int|
        0 <= k < m.links@.len() ==> #[trigger] m.links@[k] == (
            (first + d.links->0@[k].0) as usize,
            (first + d.links->0@[k].1) as usize,
        )
}

fn names(k: &String, word: &str) -> (r: bool)
    ensures
        r == (k@ == word@),
{
    let w = String::from_str(word);
    k.eq(&w)
}

fn check_sphere(d: &SphereDesc) -> (r: Option<LoadError>)
    ensures
        r == sphere_desc_error(*d),
{
    if d.position.is_none() || d.radius.is_none() {
        return Some(LoadError::MissingField);
    }
    let r = d.radius.unwrap();
    if r < 0 || r > RADIUS_LIMIT {
        Some(LoadError::InvalidValue)
    } else {
        None
    }
}

fn check_spheres(ds: &Vec<SphereDesc>) -> (r: Option<LoadError>)
    ensures
        r == spheres_error(ds@, 0),
{
    let mut k: usize = 0;
    while k < ds.len()
        invariant
            k <= ds@.len(),
            spheres_error(ds@, k as int) == spheres_error(ds@, 0),
        decreases ds@.len() - k,
    {
        let e = check_sphere(&ds[k]);
        if e.is_some() {
            return e;
        }
        k += 1;
    }
    None
}

fn check_container(d: &ContainerDesc) -> (r: Option<LoadError>)
    ensures
        r == container_desc_error(*d),
{
    if d.position.is_none() {
        return Some(LoadError::MissingField);
    }
    match &d.kind {
        None => Some(LoadError::MissingField),
        Some(k) => {
            if names(k, "cube") {
                match d.size {
                    None => Some(LoadError::MissingField),
                    Some(s) => {
                        if 0 <= s.x && s.x <= 2 * WORLD_LIMIT && 0 <= s.y && s.y <= 2 * WORLD_LIMIT && 0
                            <= s.z && s.z <= 2 * WORLD_LIMIT {
                            None
                        } else {
                            Some(LoadError::InvalidValue)
                        }
                    },
                }
            } else if names(k, "sphere") {
                match d.radius {
                    None => Some(LoadError::MissingField),
                    Some(r) => {
                        if 0 <= r && r <= WORLD_LIMIT {
                            None
                        } else {
                            Some(LoadError::InvalidValue)
                        }
                    },
                }
            } else {
                Some(LoadError::UnknownContainerType)
            }
        },
    }
}

fn check_containers(ds: &Vec<ContainerDesc>) -> (r: Option<LoadError>)
    ensures
        r == containers_error(ds@, 0),
{
    let mut k: usize = 0;
    while k < ds.len()
        invariant
            k <= ds@.len(),
            containers_error(ds@, k as int) == containers_error(ds@, 0),
        decreases ds@.len() - k,
    {
        let e = check_container(&ds[k]);
        if e.is_some() {
            return e;
        }
        k += 1;
    }
    None
}

fn check_links(links: &Vec<(u64, u64)>, n: usize) -> (r: bool)
    ensures
        r == links_in_range(links@, n as int, 0),
{
    let mut k: usize = 0;
    while k < links.len()
        invariant
            k <= links@.len(),
            links_in_range(links@, n as int, 0) == links_in_range(links@, n as int, k as int),
        decreases links@.len() - k,
    {
        let (a, b) = links[k];
        if a >= n as u64 || b >= n as u64 {
            return false;
        }
        k += 1;
    }
    true
}

fn check_molecule(d: &MoleculeDesc) -> (r: Option<LoadError>)
    ensures
        r == molecule_desc_error(*d),
{
    match (&d.spheres, &d.links) {
        (Some(spheres), Some(links)) => {
            if d.distance.is_none() || d.links_enabled.is_none() || d.strength.is_none() {
                return Some(LoadError::MissingField);
            }
            let dist = d.distance.unwrap();
            let strength = d.strength.unwrap();
            let pressure_bad = match d.internal_pressure {
                Some(p) => p < 0 || p > crate::vector::SCALE,
                None => false,
            };
            if dist < 0 || dist > 2 * WORLD_LIMIT || strength < 0 || strength > crate::vector::SCALE
                || pressure_bad {
                return Some(LoadError::InvalidValue);
            }
            let e = check_spheres(spheres);
            if e.is_some() {
                return e;
            }
            if !check_links(links, spheres.len()) {
                return Some(LoadError::LinkOutOfRange);
            }
            None
        },
        _ => Some(LoadError::MissingField),
    }
}

fn check_molecules(ds: &Vec<MoleculeDesc>) -> (r: Option<LoadError>)
    ensures
        r == molecules_error(ds@, 0),
{
    let mut k: usize = 0;
    while k < ds.len()
        invariant
            k <= ds@.len(),
            molecules_error(ds@, k as int) == molecules_error(ds@, 0),
        decreases ds@.len() - k,
    {
        let e = check_molecule(&ds[k]);
        if e.is_some() {
            return e;
        }
        k += 1;
    }
    None
}

/// The first error of a world description, or `None` when it can be loaded.
pub fn check_world(w: &WorldDesc) -> (r: Option<LoadError>)
    ensures
        r == world_error(*w),
{
    match (&w.containers, &w.spheres, &w.molecules) {
        (Some(cs), Some(ss), Some(ms)) => {
            let e = check_containers(cs);
            if e.is_some() {
                return e;
            }
            let e = check_spheres(ss);
            if e.is_some() {
                return e;
            }
            check_molecules(ms)
        },
        _ => Some(LoadError::MissingField),
    }
}

/// The container that a valid description gives.
pub fn container_from_desc(d: &ContainerDesc) -> (r: ContainerShape)
    requires
        container_desc_error(*d) is None,
    ensures
        r == desc_container(*d),
        r.wf(),
{
    let position = d.position.unwrap();
    let forced_inside = match d.forced_inside {
        Some(f) => f,
        None => false,
    };
    let k = d.kind.as_ref().unwrap();
    if names(k, "cube") {
        ContainerShape::Cube(CubeContainer::new(position, d.size.unwrap(), forced_inside))
    } else {
        let r = d.radius.unwrap();
        ContainerShape::Ball(SphereContainer::new(position, Vec3 { x: 2 * r, y: 2 * r, z: 2 * r }, forced_inside))
    }
}

impl Simulation {
    /// Adds the sphere a valid description gives; returns its index.
    fn add_described_sphere(&mut self, d: &SphereDesc, offset: Vec3) -> (r: usize)
        requires
            old(self).wf(),
            sphere_desc_error(*d) is None,
            old(self).spheres@.len() < usize::MAX,
        ensures
            final(self).wf(),
            r == old(self).spheres@.len(),
            final(self).spheres@ == old(self).spheres@.push(
                offset_sphere(desc_sphere(*d, r as u64), offset),
            ),
            final(self).containers == old(self).containers,
            final(self).molecules == old(self).molecules,
            final(self).grid == old(self).grid,
    {
        let id = self.spheres.len() as u64;
        let mut s = Sphere::new(
            id,
            d.position.unwrap(),
            d.radius.unwrap(),
            match d.velocity {
                Some(v) => v,
                None => Vec3::zero(),
            },
            match d.acceleration {
                Some(a) => a,
                None => Vec3::zero(),
            },
            match d.fixed {
                Some(f) => f,
                None => false,
            },
        );
        s.particle.add_offset(offset);
        self.add_sphere_to_sim(s)
    }

    /// Adds the molecule a description gives, its spheres moved by `offset`
    /// and then by the description's own offset; returns the molecule's
    /// index. A description with an error is refused and nothing changes.
    pub fn load_molecule(&mut self, d: &MoleculeDesc, offset: Vec3) -> (r: Result<usize, LoadError>)
        requires
            old(self).wf(),
            old(self).spheres@.len() + (match d.spheres {
                Some(s) => s@.len() as int,
                None => 0,
            }) < usize::MAX,
        ensures
            final(self).wf(),
            molecule_desc_error(*d) is Some ==> {
                &&& r == Err::<usize, LoadError>(molecule_desc_error(*d)->0)
                &&& final(self).spheres == old(self).spheres
                &&& final(self).molecules == old(self).molecules
            },
            molecule_desc_error(*d) is None ==> {
                let n0 = old(self).spheres@.len() as int;
                let ds = d.spheres->0@;
                &&& r == Ok::<usize, LoadError>(old(self).molecules@.len() as usize)
                &&& final(self).molecules@.len() == old(self).molecules@.len() + 1
                &&& final(self).molecules@.drop_last() == old(self).molecules@
                &&& final(self).spheres@.len() == n0 + ds.len()
                &&& final(self).spheres@.subrange(0, n0) == old(self).spheres@
                &&& spheres_placed(final(self).spheres@, *d, n0, offset.clamped_sum(vec_or_zero(d.offset)))
                &&& molecule_matches(final(self).molecules@.last(), *d, n0)
            },
            final(self).containers == old(self).containers,
    {
        let e = check_molecule(d);
        if e.is_some() {
            return Err(e.unwrap());
        }
        let ds = d.spheres.as_ref().unwrap();
        let links = d.links.as_ref().unwrap();
        let shift = offset.add_clamped(
            match d.offset {
                Some(o) => o,
                None => Vec3::zero(),
            },
        );
        let mut m = Molecule::new(
            d.distance,
            d.links_enabled,
            d.strength,
            d.internal_pressure,
            Some(d.internal_pressure.is_some()),
        );
        let n0 = self.spheres.len();
        let mut i: usize = 0;
        while i < ds.len()
            invariant
                self.wf(),
                m.wf(),
                molecule_desc_error(*d) is None,
                spheres_error(ds@, 0) is None,
                ds@ == d.spheres->0@,
                n0 == old(self).spheres@.len(),
                n0 + ds@.len() < usize::MAX,
                i <= ds@.len(),
                self.spheres@.len() == n0 + i,
                self.spheres@.subrange(0, n0 as int) == old(self).spheres@,
                forall|k: int|
                    0 <= k < i ==> #[trigger] self.spheres@[n0 + k] == offset_sphere(
                        desc_sphere(ds@[k], (n0 + k) as u64),
                        shift,
                    ),
                m.spheres@ == Seq::new(i as nat, |k: int| (n0 + k) as usize),
                m.links@.len() == 0,
                m.distance == d.distance->0,
                m.strength == d.strength->0,
                m.links_enabled == d.links_enabled->0,
                m.use_internal_pressure == d.internal_pressure is Some,
                d.internal_pressure is Some ==> m.internal_pressure == d.internal_pressure->0,
                self.molecules == old(self).molecules,
                self.containers == old(self).containers,
            decreases ds@.len() - i,
        {
            proof {
                lemma_spheres_error_none(ds@, 0, i as int);
            }
            let ghost before = self.spheres@;
            let idx = self.add_described_sphere(&ds[i], shift);
            m.add_sphere(idx);
            i += 1;
            proof {
                assert(self.spheres@.subrange(0, n0 as int) =~= before.subrange(0, n0 as int));
                assert(m.spheres@ =~= Seq::new(i as nat, |k: int| (n0 + k) as usize));
                assert forall|k: int| 0 <= k < i implies #[trigger] self.spheres@[n0 + k] == offset_sphere(
                    desc_sphere(ds@[k], (n0 + k) as u64),
                    shift,
                ) by {
                    if k < i - 1 {
                        assert(self.spheres@[n0 + k] == before[n0 + k]);
                    }
                }
            }
        }
        let mut k: usize = 0;
        while k < links.len()
            invariant
                m.wf(),
                links@ == d.links->0@,
                links_in_range(links@, ds@.len() as int, 0),
                n0 + ds@.len() < usize::MAX,
                m.spheres@ == Seq::new(ds@.len(), |j: int| (n0 + j) as usize),
                k <= links@.len(),
                m.links@ == Seq::new(
                    k as nat,
                    |j: int| ((n0 + links@[j].0) as usize, (n0 + links@[j].1) as usize),
                ),
                m.distance == d.distance->0,
                m.strength == d.strength->0,
                m.links_enabled == d.links_enabled->0,
                m.use_internal_pressure == d.internal_pressure is Some,
                d.internal_pressure is Some ==> m.internal_pressure == d.internal_pressure->0,
            decreases links@.len() - k,
        {
            let (a, b) = links[k];
            proof {
                lemma_links_in_range(links@, ds@.len() as int, 0, k as int);
                assert(m.spheres@[a as int] == (n0 + a) as usize);
                assert(m.spheres@[b as int] == (n0 + b) as usize);
            }
            m.add_link(n0 + a as usize, n0 + b as usize);
            k += 1;
            proof {
                assert(m.links@ =~= Seq::new(
                    k as nat,
                    |j: int| ((n0 + links@[j].0) as usize, (n0 + links@[j].1) as usize),
                ));
            }
        }
        let ghost ms = self.molecules@;
        let r = self.molecules.len();
        proof {
            assert forall|j: int| 0 <= j < m.spheres@.len() implies #[trigger] m.spheres@[j] < self.spheres@.len() by {}
        }
        self.molecules.push(m);
        proof {
            assert(self.molecules@.drop_last() =~= ms);
            assert forall|j: int| 0 <= j < self.molecules@.len() implies (#[trigger] self.molecules@[j]).wf()
                && self.molecules@[j].members_below(self.spheres@.len() as int) by {
                if j < ms.len() {
                    assert(self.molecules@[j] == ms[j]);
                    assert(ms[j].members_below(old(self).spheres@.len() as int));
                }
            }
        }
        Ok(r)
    }

    /// Loads a world description: its containers, then its free spheres,
    /// then its molecules. A description with an error is refused and
    /// nothing changes.
    pub fn load_world(&mut self, w: &WorldDesc) -> (r: Result<(), LoadError>)
        requires
            old(self).wf(),
            old(self).spheres@.len() + world_sphere_count(*w) < usize::MAX,
        ensures
            final(self).wf(),
            world_error(*w) is Some ==> {
                &&& r == Err::<(), LoadError>(world_error(*w)->0)
                &&& final(self).spheres == old(self).spheres
                &&& final(self).containers == old(self).containers
                &&& final(self).molecules == old(self).molecules
            },
            world_error(*w) is None ==> {
                let n0 = old(self).spheres@.len() as int;
                let cs = w.containers->0@;
                let ss = w.spheres->0@;
                &&& r is Ok
                &&& final(self).containers@ == old(self).containers@ + Seq::new(
                    cs.len(),
                    |i: int| desc_container(cs[i]),
                )
                &&& final(self).spheres@.len() == n0 + world_sphere_count(*w)
                &&& final(self).spheres@.subrange(0, n0) == old(self).spheres@
                &&& forall|i: int|
                    0 <= i < ss.len() ==> #[trigger] final(self).spheres@[n0 + i] == offset_sphere(
                        desc_sphere(ss[i], (n0 + i) as u64),
                        Vec3 { x: 0, y: 0, z: 0 },
                    )
                &&& final(self).molecules@.len() == old(self).molecules@.len() + w.molecules->0@.len()
                &&& final(self).molecules@.subrange(0, old(self).molecules@.len() as int)
                    == old(self).molecules@
                &&& forall|k: int|
                    0 <= k < w.molecules->0@.len() ==> molecule_matches(
                        #[trigger] final(self).molecules@[old(self).molecules@.len() + k],
                        w.molecules->0@[k],
                        n0 + ss.len() + molecule_sphere_count(w.molecules->0@, k),
                    )
                &&& forall|k: int|
                    0 <= k < w.molecules->0@.len() ==> #[trigger] spheres_placed(
                        final(self).spheres@,
                        w.molecules->0@[k],
                        n0 + ss.len() + molecule_sphere_count(w.molecules->0@, k),
                        Vec3 { x: 0, y: 0, z: 0 }.clamped_sum(vec_or_zero(w.molecules->0@[k].offset)),
                    )
            },
    {
        let e = check_world(w);
        if e.is_some() {
            return Err(e.unwrap());
        }
        let cs = w.containers.as_ref().unwrap();
        let ss = w.spheres.as_ref().unwrap();
        let ms = w.molecules.as_ref().unwrap();
        let mut k: usize = 0;
        while k < cs.len()
            invariant
                self.wf(),
                cs@ == w.containers->0@,
                containers_error(cs@, 0) is None,
                k <= cs@.len(),
                self.containers@ == old(self).containers@ + Seq::new(k as nat, |i: int| desc_container(cs@[i])),
                self.spheres == old(self).spheres,
                self.molecules == old(self).molecules,
            decreases cs@.len() - k,
        {
            proof {
                lemma_containers_error_none(cs@, 0, k as int);
            }
            let c = container_from_desc(&cs[k]);
            self.containers.push(c);
            k += 1;
            proof {
                assert(self.containers@ =~= old(self).containers@ + Seq::new(
                    k as nat,
                    |i: int| desc_container(cs@[i]),
                ));
                assert(all_molecules_wf(self.molecules@, self.spheres@.len() as int));
            }
        }
        let n0 = self.spheres.len();
        proof {
            lemma_molecule_count_monotone(ms@, 0, ms@.len() as int);
        }
        let mut k: usize = 0;
        while k < ss.len()
            invariant
                self.wf(),
                ss@ == w.spheres->0@,
                spheres_error(ss@, 0) is None,
                k <= ss@.len(),
                n0 == old(self).spheres@.len(),
                n0 + world_sphere_count(*w) < usize::MAX,
                world_sphere_count(*w) >= ss@.len(),
                self.spheres@.len() == n0 + k,
                self.spheres@.subrange(0, n0 as int) == old(self).spheres@,
                forall|i: int|
                    0 <= i < k ==> #[trigger] self.spheres@[n0 + i] == offset_sphere(
                        desc_sphere(ss@[i], (n0 + i) as u64),
                        Vec3 { x: 0, y: 0, z: 0 },
                    ),
                self.containers@ == old(self).containers@ + Seq::new(
                    cs@.len(),
                    |i: int| desc_container(cs@[i]),
                ),
                self.molecules == old(self).molecules,
            decreases ss@.len() - k,
        {
            proof {
                lemma_spheres_error_none(ss@, 0, k as int);
            }
            let ghost before = self.spheres@;
            self.add_described_sphere(&ss[k], Vec3::zero());
            k += 1;
            proof {
                assert(self.spheres@.subrange(0, n0 as int) =~= before.subrange(0, n0 as int));
                assert forall|i: int| 0 <= i < k implies #[trigger] self.spheres@[n0 + i] == offset_sphere(
                    desc_sphere(ss@[i], (n0 + i) as u64),
                    Vec3 { x: 0, y: 0, z: 0 },
                ) by {
                    if i < k - 1 {
                        assert(self.spheres@[n0 + i] == before[n0 + i]);
                    }
                }
            }
        }
        let ghost after_spheres = self.spheres@;
        let m0 = self.molecules.len();
        let mut k: usize = 0;
        while k < ms.len()
            invariant
                self.wf(),
                ms@ == w.molecules->0@,
                ss@ == w.spheres->0@,
                molecules_error(ms@, 0) is None,
                k <= ms@.len(),
                n0 == old(self).spheres@.len(),
                n0 + world_sphere_count(*w) < usize::MAX,
                world_sphere_count(*w) == ss@.len() + molecule_sphere_count(ms@, ms@.len() as int),
                self.spheres@.len() == n0 + ss@.len() + molecule_sphere_count(ms@, k as int),
                self.spheres@.subrange(0, n0 + ss@.len()) == after_spheres,
                after_spheres.len() == n0 + ss@.len(),
                m0 == old(self).molecules@.len(),
                self.molecules@.len() == m0 + k,
                self.molecules@.subrange(0, m0 as int) == old(self).molecules@,
                self.containers@ == old(self).containers@ + Seq::new(
                    cs@.len(),
                    |i: int| desc_container(cs@[i]),
                ),
                forall|j: int|
                    0 <= j < k ==> molecule_matches(
                        #[trigger] self.molecules@[m0 + j],
                        ms@[j],
                        n0 + ss@.len() + molecule_sphere_count(ms@, j),
                    ),
                forall|j: int|
                    0 <= j < k ==> #[trigger] spheres_placed(
                        self.spheres@,
                        ms@[j],
                        n0 + ss@.len() + molecule_sphere_count(ms@, j),
                        Vec3 { x: 0, y: 0, z: 0 }.clamped_sum(vec_or_zero(ms@[j].offset)),
                    ),
            decreases ms@.len() - k,
        {
            proof {
                lemma_molecules_error_none(ms@, 0, k as int);
                lemma_molecule_count_step(ms@, k as int);
                lemma_molecule_count_monotone(ms@, k + 1, ms@.len() as int);
            }
            let ghost before = *self;
            proof {
                lemma_molecule_count_monotone(ms@, 0, k as int);
            }
            let res = self.load_molecule(&ms[k], Vec3::zero());
            k += 1;
            proof {
                let l = n0 + ss@.len();
                let bl = before.spheres@.len() as int;
                assert(self.spheres@.subrange(0, bl) == before.spheres@);
                assert forall|j: int| 0 <= j < l implies #[trigger] self.spheres@[j] == before.spheres@[j] by {
                    assert(self.spheres@.subrange(0, bl)[j] == self.spheres@[j]);
                }
                assert(self.spheres@.subrange(0, l) =~= before.spheres@.subrange(0, l));
                assert(self.molecules@.subrange(0, m0 as int) =~= before.molecules@.subrange(0, m0 as int));
                assert forall|j: int| 0 <= j < k implies molecule_matches(
                    #[trigger] self.molecules@[m0 + j],
                    ms@[j],
                    n0 + ss@.len() + molecule_sphere_count(ms@, j),
                ) by {
                    if j < k - 1 {
                        assert(self.molecules@[m0 + j] == before.molecules@[m0 + j]);
                    } else {
                        assert(self.molecules@.last() == self.molecules@[m0 + j]);
                    }
                }
                assert forall|j: int| 0 <= j < k implies #[trigger] spheres_placed(
                    self.spheres@,
                    ms@[j],
                    n0 + ss@.len() + molecule_sphere_count(ms@, j),
                    Vec3 { x: 0, y: 0, z: 0 }.clamped_sum(vec_or_zero(ms@[j].offset)),
                ) by {
                    let first = n0 + ss@.len() + molecule_sphere_count(ms@, j);
                    let shift = Vec3 { x: 0, y: 0, z: 0 }.clamped_sum(vec_or_zero(ms@[j].offset));
                    if j < k - 1 {
                        assert(spheres_placed(before.spheres@, ms@[j], first, shift));
                        lemma_molecule_count_step(ms@, j);
                        lemma_molecule_count_monotone(ms@, j + 1, k - 1);
                        lemma_molecule_count_monotone(ms@, 0, j);
                        lemma_molecules_error_none(ms@, 0, j);
                        let ds = ms@[j].spheres->0@;
                        assert(first + ds.len() <= bl);
                        assert forall|i: int| 0 <= i < ds.len() implies #[trigger] self.spheres@[first + i]
                            == before.spheres@[first + i] by {
                            assert(self.spheres@.subrange(0, bl)[first + i] == self.spheres@[first + i]);
                        }
                    }
                }
            }
        }
        proof {
            assert(self.spheres@.subrange(0, n0 as int) =~= after_spheres.subrange(0, n0 as int));
            assert forall|i: int| 0 <= i < ss@.len() implies #[trigger] self.spheres@[n0 + i] == offset_sphere(
                desc_sphere(ss@[i], (n0 + i) as u64),
                Vec3 { x: 0, y: 0, z: 0 },
            ) by {
                assert(self.spheres@[n0 + i] == after_spheres[n0 + i]);
            }
            assert forall|k: int| 0 <= k < w.molecules->0@.len() implies molecule_matches(
                #[trigger] self.molecules@[old(self).molecules@.len() + k],
                w.molecules->0@[k],
                old(self).spheres@.len() + w.spheres->0@.len() + molecule_sphere_count(w.molecules->0@, k),
            ) by {
                assert(self.molecules@[m0 + k] == self.molecules@[old(self).molecules@.len() + k]);
            }
            assert forall|k: int| 0 <= k < w.molecules->0@.len() implies #[trigger] spheres_placed(
                self.spheres@,
                w.molecules->0@[k],
                old(self).spheres@.len() + w.spheres->0@.len() + molecule_sphere_count(w.molecules->0@, k),
                Vec3 { x: 0, y: 0, z: 0 }.clamped_sum(vec_or_zero(w.molecules->0@[k].offset)),
            ) by {
                assert(spheres_placed(
                    self.spheres@,
                    ms@[k],
                    n0 + ss@.len() + molecule_sphere_count(ms@, k),
                    Vec3 { x: 0, y: 0, z: 0 }.clamped_sum(vec_or_zero(ms@[k].offset)),
                ));
            }
        }
        Ok(())
    }
}

/// Spheres in the first `k` molecule descriptions (valid ones).
pub open spec fn molecule_sphere_count(ms: Seq<MoleculeDesc>, k: int) -> int
    decreases k,
{
    if k <= 0 || k > ms.len() {
        0
    } else {
        molecule_sphere_count(ms, k - 1) + match ms[k - 1].spheres {
            Some(s) => s@.len() as int,
            None => 0,
        }
    }
}

/// How many spheres a world description adds.
pub open spec fn world_sphere_count(w: WorldDesc) -> int {
    (match w.spheres {
        Some(s) => s@.len() as int,
        None => 0,
    }) + match w.molecules {
        Some(ms) => molecule_sphere_count(ms@, ms@.len() as int),
        None => 0,
    }
}

proof fn lemma_molecule_count_step(ms: Seq<MoleculeDesc>, k: int)
    requires
        0 <= k < ms.len(),
    ensures
        molecule_sphere_count(ms, k + 1) == molecule_sphere_count(ms, k) + match ms[k].spheres {
            Some(s) => s@.len() as int,
            None => 0,
        },
{
}

proof fn lemma_molecule_count_monotone(ms: Seq<MoleculeDesc>, a: int, b: int)
    requires
        0 <= a <= b <= ms.len(),
    ensures
        molecule_sphere_count(ms, a) <= molecule_sphere_count(ms, b),
    decreases b - a,
{
    if a < b {
        lemma_molecule_count_monotone(ms, a, b - 1);
    }
}

proof fn lemma_spheres_error_none(ds: Seq<SphereDesc>, k: int, i: int)
    requires
        0 <= k <= i < ds.len(),
        spheres_error(ds, k) is None,
    ensures
        sphere_desc_error(ds[i]) is None,
    decreases i - k,
{
    if k < i {
        lemma_spheres_error_none(ds, k + 1, i);
    }
}

proof fn lemma_containers_error_none(ds: Seq<ContainerDesc>, k: int, i: int)
    requires
        0 <= k <= i < ds.len(),
        containers_error(ds, k) is None,
    ensures
        container_desc_error(ds[i]) is None,
    decreases i - k,
{
    if k < i {
        lemma_containers_error_none(ds, k + 1, i);
    }
}

proof fn lemma_molecules_error_none(ds: Seq<MoleculeDesc>, k: int, i: int)
    requires
        0 <= k <= i < ds.len(),
        molecules_error(ds, k) is None,
    ensures
        molecule_desc_error(ds[i]) is None,
    decreases i - k,
{
    if k < i {
        lemma_molecules_error_none(ds, k + 1, i);
    }
}

proof fn lemma_links_in_range(links: Seq<(u64, u64)>, n: int, k: int, i: int)
    requires
        0 <= k <= i < links.len(),
        links_in_range(links, n, k),
    ensures
        links[i].0 < n,
        links[i].1 < n,
    decreases i - k,
{
    if k < i {
        lemma_links_in_range(links, n, k + 1, i);
    }
}

} // verus!
