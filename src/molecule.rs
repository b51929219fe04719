use vstd::prelude::*;

use crate::particle::{distance_spec, negated, Sphere};
use crate::vector::int_sqrt;
use crate::vector::{
    floor_div, lemma_coord_below_root, lemma_div_within, lemma_mul_within, Vec3, SCALE, WORLD_LIMIT,
};

verus! {

/// Every sphere of the sequence is well formed.
pub open spec fn all_wf(sp: Seq<Sphere>) -> bool {
    forall|i: int| 0 <= i < sp.len() ==> (#[trigger] sp[i]).wf()
}

/// Two sequences of spheres of one length whose identifiers agree index by index.
pub open spec fn same_ids(a: Seq<Sphere>, b: Seq<Sphere>) -> bool {
    a.len() == b.len() && forall|i: int| 0 <= i < a.len() ==> (#[trigger] a[i]).particle.id == b[i].particle.id
}

/// One coordinate of the distance correction: the separation axis scaled by
/// `strength * (current - target) / current`.
pub open spec fn correction_coord(axis: int, error: int, strength: int, current: int) -> int {
    (axis * error * strength) / (current * SCALE)
}

/// A group of spheres (by index) held at a common distance, either along
/// explicit links or pairwise among all members, with optional pressure
/// pushing members away from their centroid.
///
/// `distance` is in fixed-point units; `strength` and `internal_pressure` are
/// fractions scaled by `SCALE`.
#[derive(Debug)]
pub struct Molecule {
    pub distance: i64,
    pub strength: i64,
    pub internal_pressure: i64,
    pub spheres: Vec<usize>,
    pub links: Vec<(usize, usize)>,
    pub links_enabled: bool,
    pub use_internal_pressure: bool,
}

pub open spec fn valid_distance(d: int) -> bool {
    0 <= d <= 2 * WORLD_LIMIT
}

pub open spec fn valid_fraction(f: int) -> bool {
    0 <= f <= SCALE
}

/// Default target distance: half a world unit.
pub const DEFAULT_DISTANCE: i64 = 500_000;

/// Default strength: one hundredth.
pub const DEFAULT_STRENGTH: i64 = 10_000;

/// Default internal pressure: one thousandth.
pub const DEFAULT_PRESSURE: i64 = 1_000;

impl Default for Molecule {
    /// A group with the default parameters and no members.
    fn default() -> (r: Molecule)
        ensures
            r.wf(),
            r.distance == DEFAULT_DISTANCE,
            r.strength == DEFAULT_STRENGTH,
            r.internal_pressure == DEFAULT_PRESSURE,
            !r.links_enabled,
            !r.use_internal_pressure,
            r.spheres@.len() == 0,
            r.links@.len() == 0,
    {
        Molecule::new(None, None, None, None, None)
    }
}

impl Molecule {
    /// Parameters in range, and every link joins two registered members.
    pub open spec fn wf(self) -> bool {
        &&& valid_distance(self.distance as int)
        &&& valid_fraction(self.strength as int)
        &&& valid_fraction(self.internal_pressure as int)
        &&& forall|k: int|
            0 <= k < self.links@.len() ==> self.spheres@.contains((#[trigger] self.links@[k]).0)
                && self.spheres@.contains(self.links@[k].1)
    }

    /// Every member indexes one of `n` spheres.
    pub open spec fn members_below(self, n: int) -> bool {
        forall|k: int| 0 <= k < self.spheres@.len() ==> #[trigger] self.spheres@[k] < n
    }

    /// The spheres after one distance correction between spheres `a` and `b`.
    pub open spec fn relax_pair(self, sp: Seq<Sphere>, a: int, b: int) -> Seq<Sphere> {
        if 0 <= a < sp.len() && 0 <= b < sp.len() {
            let pa = sp[a].particle.position;
            let pb = sp[b].particle.position;
            let cur = distance_spec(pa, pb);
            if cur == 0 {
                sp
            } else {
                let e = cur - self.distance;
                let d = Vec3 {
                    x: correction_coord(pa.x - pb.x, e, self.strength as int, cur) as i64,
                    y: correction_coord(pa.y - pb.y, e, self.strength as int, cur) as i64,
                    z: correction_coord(pa.z - pb.z, e, self.strength as int, cur) as i64,
                };
                let moved_a = sp.update(a, sp[a].moved(negated(d)));
                moved_a.update(b, moved_a[b].moved(d))
            }
        } else {
            sp
        }
    }

    /// The spheres after correcting, in order, the member pairs `(i, j)`,
    /// `(i, j + 1)`, ..., then every pair `(i', j')` with `i < i' < j'`.
    pub open spec fn relax_all_from(self, sp: Seq<Sphere>, i: int, j: int) -> Seq<Sphere>
        decreases self.spheres@.len() - i, self.spheres@.len() - j,
    {
        let n = self.spheres@.len() as int;
        if i < 0 || i >= n {
            sp
        } else if j >= n || j <= i {
            self.relax_all_from(sp, i + 1, i + 2)
        } else {
            self.relax_all_from(
                self.relax_pair(sp, self.spheres@[i] as int, self.spheres@[j] as int),
                i,
                j + 1,
            )
        }
    }

    /// The spheres after correcting every unordered pair of members once.
    pub open spec fn relax_all(self, sp: Seq<Sphere>) -> Seq<Sphere> {
        self.relax_all_from(sp, 0, 1)
    }

    /// The spheres after correcting the links from the `k`-th on, in order.
    pub open spec fn relax_links_from(self, sp: Seq<Sphere>, k: int) -> Seq<Sphere>
        decreases self.links@.len() - k,
    {
        if k < 0 || k >= self.links@.len() {
            sp
        } else {
            self.relax_links_from(
                self.relax_pair(sp, self.links@[k].0 as int, self.links@[k].1 as int),
                k + 1,
            )
        }
    }

    pub open spec fn relax_links(self, sp: Seq<Sphere>) -> Seq<Sphere> {
        self.relax_links_from(sp, 0)
    }

    /// Sum of one coordinate of the first `k` members' positions.
    pub open spec fn coord_sum(self, sp: Seq<Sphere>, axis: int, k: int) -> int
        decreases k,
    {
        if k <= 0 {
            0
        } else {
            let p = sp[self.spheres@[k - 1] as int].particle.position;
            self.coord_sum(sp, axis, k - 1) + if axis == 0 {
                p.x as int
            } else if axis == 1 {
                p.y as int
            } else {
                p.z as int
            }
        }
    }

    /// The arithmetic mean of the members' positions, rounded down.
    pub open spec fn centroid(self, sp: Seq<Sphere>) -> Vec3 {
        let n = self.spheres@.len() as int;
        Vec3 {
            x: (self.coord_sum(sp, 0, n) / n) as i64,
            y: (self.coord_sum(sp, 1, n) / n) as i64,
            z: (self.coord_sum(sp, 2, n) / n) as i64,
        }
    }

    /// The outward push of a sphere at `p` from `center`: the radial vector
    /// scaled by the pressure coefficient.
    pub open spec fn pressure_push(self, p: Vec3, center: Vec3) -> Vec3 {
        Vec3 {
            x: ((p.x - center.x) * self.internal_pressure / SCALE as int) as i64,
            y: ((p.y - center.y) * self.internal_pressure / SCALE as int) as i64,
            z: ((p.z - center.z) * self.internal_pressure / SCALE as int) as i64,
        }
    }

    /// The spheres after pushing the members from the `k`-th on away from `center`.
    pub open spec fn pressure_from(self, sp: Seq<Sphere>, center: Vec3, k: int) -> Seq<Sphere>
        decreases self.spheres@.len() - k,
    {
        if k < 0 || k >= self.spheres@.len() {
            sp
        } else {
            let m = self.spheres@[k] as int;
            let next = sp.update(m, sp[m].moved(self.pressure_push(sp[m].particle.position, center)));
            self.pressure_from(next, center, k + 1)
        }
    }

    /// The spheres after one application of internal pressure.
    pub open spec fn pressurized(self, sp: Seq<Sphere>) -> Seq<Sphere> {
        if self.spheres@.len() == 0 {
            sp
        } else {
            self.pressure_from(sp, self.centroid(sp), 0)
        }
    }

    /// A group with the given parameters, each falling back to its default:
    /// distance half a unit, strength one hundredth, pressure one thousandth,
    /// links and pressure off.
    pub fn new(
        distance: Option<i64>,
        links_enabled: Option<bool>,
        strength: Option<i64>,
        internal_pressure: Option<i64>,
        use_internal_pressure: Option<bool>,
    ) -> (r: Molecule)
        requires
            distance matches Some(d) ==> valid_distance(d as int),
            strength matches Some(s) ==> valid_fraction(s as int),
            internal_pressure matches Some(p) ==> valid_fraction(p as int),
        ensures
            r.wf(),
            r.distance == (match distance {
                Some(d) => d,
                None => DEFAULT_DISTANCE,
            }),
            r.strength == (match strength {
                Some(s) => s,
                None => DEFAULT_STRENGTH,
            }),
            r.internal_pressure == (match internal_pressure {
                Some(p) => p,
                None => DEFAULT_PRESSURE,
            }),
            r.links_enabled == (match links_enabled {
                Some(b) => b,
                None => false,
            }),
            r.use_internal_pressure == (match use_internal_pressure {
                Some(b) => b,
                None => false,
            }),
            r.spheres@.len() == 0,
            r.links@.len() == 0,
    {
        Molecule {
            distance: match distance {
                Some(d) => d,
                None => DEFAULT_DISTANCE,
            },
            strength: match strength {
                Some(s) => s,
                None => DEFAULT_STRENGTH,
            },
            internal_pressure: match internal_pressure {
                Some(p) => p,
                None => DEFAULT_PRESSURE,
            },
            spheres: Vec::new(),
            links: Vec::new(),
            links_enabled: match links_enabled {
                Some(b) => b,
                None => false,
            },
            use_internal_pressure: match use_internal_pressure {
                Some(b) => b,
                None => false,
            },
        }
    }

    /// Registers sphere `sphere` as a member.
    pub fn add_sphere(&mut self, sphere: usize)
        requires
            old(self).wf(),
        ensures
            final(self).wf(),
            final(self).spheres@ == old(self).spheres@.push(sphere),
            final(self).links@ == old(self).links@,
            final(self).distance == old(self).distance,
            final(self).strength == old(self).strength,
            final(self).internal_pressure == old(self).internal_pressure,
            final(self).links_enabled == old(self).links_enabled,
            final(self).use_internal_pressure == old(self).use_internal_pressure,
    {
        self.spheres.push(sphere);
        proof {
            assert forall|k: int| 0 <= k < self.links@.len() implies self.spheres@.contains(
                (#[trigger] self.links@[k]).0,
            ) && self.spheres@.contains(self.links@[k].1) by {
                let old_members = old(self).spheres@;
                assert(old_members.contains(self.links@[k].0));
                assert(old_members.contains(self.links@[k].1));
                let i = choose|i: int| 0 <= i < old_members.len() && old_members[i] == self.links@[k].0;
                let j = choose|j: int| 0 <= j < old_members.len() && old_members[j] == self.links@[k].1;
                assert(self.spheres@[i] == old_members[i]);
                assert(self.spheres@[j] == old_members[j]);
            }
        }
    }

    /// Links two registered members.
    pub fn add_link(&mut self, sphere1: usize, sphere2: usize)
        requires
            old(self).wf(),
            old(self).spheres@.contains(sphere1),
            old(self).spheres@.contains(sphere2),
        ensures
            final(self).wf(),
            final(self).links@ == old(self).links@.push((sphere1, sphere2)),
            final(self).spheres@ == old(self).spheres@,
            final(self).distance == old(self).distance,
            final(self).strength == old(self).strength,
            final(self).internal_pressure == old(self).internal_pressure,
            final(self).links_enabled == old(self).links_enabled,
            final(self).use_internal_pressure == old(self).use_internal_pressure,
    {
        self.links.push((sphere1, sphere2));
        proof {
            assert forall|k: int| 0 <= k < self.links@.len() implies self.spheres@.contains(
                (#[trigger] self.links@[k]).0,
            ) && self.spheres@.contains(self.links@[k].1) by {
                if k < old(self).links@.len() {
                    assert(self.links@[k] == old(self).links@[k]);
                }
            }
        }
    }

    /// Moves spheres `a` and `b` symmetrically toward the target distance:
    /// each by the separation axis times `strength * (current - target) /
    /// current`, `a` toward `b` when they are too far apart. Coincident
    /// centres have no axis and are left alone.
    pub fn maintain_distance(&self, a: usize, b: usize, spheres: &mut Vec<Sphere>)
        requires
            self.wf(),
            a < old(spheres)@.len(),
            b < old(spheres)@.len(),
            all_wf(old(spheres)@),
        ensures
            same_ids(final(spheres)@, old(spheres)@),
            final(spheres)@.len() == old(spheres)@.len(),
            all_wf(final(spheres)@),
            final(spheres)@ == self.relax_pair(old(spheres)@, a as int, b as int),
    {
        let sa = spheres[a];
        let sb = spheres[b];
        let axis = sa.particle.position.sub(sb.particle.position);
        let cur = axis.norm();
        if cur == 0 {
            return ;
        }
        proof {
            let (ax, ay, az) = (axis.x as int, axis.y as int, axis.z as int);
            assert(ax * ax >= 0 && ay * ay >= 0 && az * az >= 0) by (nonlinear_arith);
            lemma_coord_below_root(ax, cur as int);
            lemma_coord_below_root(ay, cur as int);
            lemma_coord_below_root(az, cur as int);
        }
        let e = cur - self.distance;
        let d = Vec3 {
            x: correction_step(axis.x, e, self.strength, cur),
            y: correction_step(axis.y, e, self.strength, cur),
            z: correction_step(axis.z, e, self.strength, cur),
        };
        let mut sa2 = sa;
        sa2.particle.move_by(Vec3 { x: -d.x, y: -d.y, z: -d.z });
        spheres[a] = sa2;
        let mut sb2 = spheres[b];
        sb2.particle.move_by(d);
        spheres[b] = sb2;
    }

    /// Corrects the distance of every unordered pair of members, in order.
    pub fn maintain_distance_all(&self, spheres: &mut Vec<Sphere>)
        requires
            self.wf(),
            self.members_below(old(spheres)@.len() as int),
            all_wf(old(spheres)@),
        ensures
            same_ids(final(spheres)@, old(spheres)@),
            final(spheres)@.len() == old(spheres)@.len(),
            all_wf(final(spheres)@),
            final(spheres)@ == self.relax_all(old(spheres)@),
    {
        let n = self.spheres.len();
        let mut i: usize = 0;
        while i < n
            invariant
                self.wf(),
                n == self.spheres@.len(),
                self.members_below(spheres@.len() as int),
                spheres@.len() == old(spheres)@.len(),
                all_wf(spheres@),
                same_ids(spheres@, old(spheres)@),
                i <= n,
                self.relax_all_from(spheres@, i as int, i + 1) == self.relax_all(old(spheres)@),
            decreases n - i,
        {
            let mut j: usize = i + 1;
            while j < n
                invariant
                    self.wf(),
                    n == self.spheres@.len(),
                    self.members_below(spheres@.len() as int),
                    spheres@.len() == old(spheres)@.len(),
                    all_wf(spheres@),
                    same_ids(spheres@, old(spheres)@),
                    i < n,
                    i < j <= n,
                    self.relax_all_from(spheres@, i as int, j as int) == self.relax_all(old(spheres)@),
                decreases n - j,
            {
                let a = self.spheres[i];
                let b = self.spheres[j];
                self.maintain_distance(a, b, spheres);
                j += 1;
            }
            i += 1;
        }
    }

    /// Corrects the distance along each link, in order.
    pub fn maintain_distance_links(&self, spheres: &mut Vec<Sphere>)
        requires
            self.wf(),
            self.members_below(old(spheres)@.len() as int),
            all_wf(old(spheres)@),
        ensures
            same_ids(final(spheres)@, old(spheres)@),
            final(spheres)@.len() == old(spheres)@.len(),
            all_wf(final(spheres)@),
            final(spheres)@ == self.relax_links(old(spheres)@),
    {
        let mut k: usize = 0;
        while k < self.links.len()
            invariant
                self.wf(),
                self.members_below(spheres@.len() as int),
                spheres@.len() == old(spheres)@.len(),
                all_wf(spheres@),
                same_ids(spheres@, old(spheres)@),
                k <= self.links@.len(),
                self.relax_links_from(spheres@, k as int) == self.relax_links(old(spheres)@),
            decreases self.links@.len() - k,
        {
            let (a, b) = self.links[k];
            proof {
                self.lemma_link_in_range(spheres@.len() as int, k as int);
            }
            self.maintain_distance(a, b, spheres);
            k += 1;
        }
    }

    proof fn lemma_link_in_range(self, n: int, k: int)
        requires
            self.wf(),
            self.members_below(n),
            0 <= k < self.links@.len(),
        ensures
            self.links@[k].0 < n,
            self.links@[k].1 < n,
    {
        let m = self.spheres@;
        let i = choose|i: int| 0 <= i < m.len() && m[i] == self.links@[k].0;
        let j = choose|j: int| 0 <= j < m.len() && m[j] == self.links@[k].1;
        assert(m[i] < n);
        assert(m[j] < n);
    }

    /// Pushes every member away from the members' centroid, by the pressure
    /// coefficient times its distance from it. The centroid is taken once,
    /// before any member moves.
    pub fn add_internal_pressure(&self, spheres: &mut Vec<Sphere>)
        requires
            self.wf(),
            self.members_below(old(spheres)@.len() as int),
            all_wf(old(spheres)@),
        ensures
            same_ids(final(spheres)@, old(spheres)@),
            final(spheres)@.len() == old(spheres)@.len(),
            all_wf(final(spheres)@),
            final(spheres)@ == self.pressurized(old(spheres)@),
    {
        let n = self.spheres.len();
        if n == 0 {
            return ;
        }
        let mut sx: i128 = 0;
        let mut sy: i128 = 0;
        let mut sz: i128 = 0;
        let mut k: usize = 0;
        while k < n
            invariant
                n == self.spheres@.len(),
                self.members_below(spheres@.len() as int),
                all_wf(spheres@),
                k <= n,
                sx == self.coord_sum(spheres@, 0, k as int),
                sy == self.coord_sum(spheres@, 1, k as int),
                sz == self.coord_sum(spheres@, 2, k as int),
                -(k * WORLD_LIMIT) <= sx <= k * WORLD_LIMIT,
                -(k * WORLD_LIMIT) <= sy <= k * WORLD_LIMIT,
                -(k * WORLD_LIMIT) <= sz <= k * WORLD_LIMIT,
            decreases n - k,
        {
            let p = spheres[self.spheres[k]].particle.position;
            proof {
                assert(spheres@[self.spheres@[k as int] as int].wf());
                assert(k * WORLD_LIMIT < 2_000_000_000_000_000_000_000_000_000_000) by (nonlinear_arith)
                    requires
                        k < n,
                        n <= usize::MAX,
                ;
                assert((k + 1) * WORLD_LIMIT == k * WORLD_LIMIT + WORLD_LIMIT) by (nonlinear_arith);
            }
            sx = sx + p.x as i128;
            sy = sy + p.y as i128;
            sz = sz + p.z as i128;
            k += 1;
        }
        proof {
            assert(n * WORLD_LIMIT >= 0) by (nonlinear_arith)
                requires
                    n >= 1,
            ;
            lemma_centroid_bound(sx as int, n as int);
            lemma_centroid_bound(sy as int, n as int);
            lemma_centroid_bound(sz as int, n as int);
        }
        let center = Vec3 {
            x: floor_div(sx, n as i128) as i64,
            y: floor_div(sy, n as i128) as i64,
            z: floor_div(sz, n as i128) as i64,
        };
        let ghost start = spheres@;
        let mut k: usize = 0;
        while k < n
            invariant
                self.wf(),
                n == self.spheres@.len(),
                n > 0,
                center == self.centroid(start),
                center.in_world(),
                self.members_below(spheres@.len() as int),
                spheres@.len() == start.len(),
                all_wf(spheres@),
                same_ids(spheres@, old(spheres)@),
                k <= n,
                self.pressure_from(spheres@, center, k as int) == self.pressurized(start),
            decreases n - k,
        {
            let m = self.spheres[k];
            let mut s = spheres[m];
            let axis = s.particle.position.sub(center);
            let push = Vec3 {
                x: pressure_step(axis.x, self.internal_pressure),
                y: pressure_step(axis.y, self.internal_pressure),
                z: pressure_step(axis.z, self.internal_pressure),
            };
            s.particle.move_by(push);
            spheres[m] = s;
            k += 1;
        }
    }
}

proof fn lemma_centroid_bound(s: int, n: int)
    requires
        n >= 1,
        -(n * WORLD_LIMIT) <= s <= n * WORLD_LIMIT,
    ensures
        -WORLD_LIMIT <= s / n <= WORLD_LIMIT,
{
    assert(n * WORLD_LIMIT == WORLD_LIMIT * n) by (nonlinear_arith);
    lemma_div_within(s, n, WORLD_LIMIT as int);
}

/// `correction_coord` on machine integers.
fn correction_step(axis: i64, error: i64, strength: i64, current: i64) -> (r: i64)
    requires
        0 < current < 1_099_511_627_776,
        -current <= axis <= current,
        -1_099_511_627_776 - 2 * WORLD_LIMIT <= error <= 1_099_511_627_776,
        valid_fraction(strength as int),
    ensures
        r == correction_coord(axis as int, error as int, strength as int, current as int),
        -1_099_511_627_776 - 2 * WORLD_LIMIT <= r <= 1_099_511_627_776 + 2 * WORLD_LIMIT,
{
    let ghost bound: int = 1_099_511_627_776 + 2 * WORLD_LIMIT;
    let ghost abs_e: int = if error >= 0 { error as int } else { -error };
    proof {
        lemma_mul_within(axis as int, error as int, current as int, abs_e);
        lemma_mul_within(current as int, abs_e, 1_099_511_627_776, bound);
        lemma_mul_within(axis * error, strength as int, current * abs_e, SCALE as int);
        lemma_mul_within(current * abs_e, SCALE as int, 1_099_511_627_776 * bound, SCALE as int);
    }
    let num = axis as i128 * error as i128 * strength as i128;
    proof {
        assert(current * abs_e * SCALE == (current * SCALE) * abs_e) by (nonlinear_arith);
        assert(current * abs_e >= 0) by (nonlinear_arith)
            requires
                current > 0,
                abs_e >= 0,
        ;
        lemma_div_within(num as int, current * SCALE, abs_e);
    }
    floor_div(num, current as i128 * SCALE as i128) as i64
}

/// One coordinate of the pressure push: `axis * pressure / SCALE`, rounded down.
fn pressure_step(axis: i64, pressure: i64) -> (r: i64)
    requires
        -2 * WORLD_LIMIT <= axis <= 2 * WORLD_LIMIT,
        valid_fraction(pressure as int),
    ensures
        r == (axis * pressure) / SCALE as int,
{
    proof {
        lemma_mul_within(axis as int, pressure as int, 2 * WORLD_LIMIT, SCALE as int);
        assert(SCALE * (2 * WORLD_LIMIT) == 2 * WORLD_LIMIT * SCALE) by (nonlinear_arith);
        lemma_div_within(axis * pressure, SCALE as int, 2 * WORLD_LIMIT);
    }
    floor_div(axis as i128 * pressure as i128, SCALE as i128) as i64
}

/// One relaxation of a two-member group over all pairs moves both free
/// members symmetrically so that their separation vector is scaled by
/// `1 - 2 * strength * (current - distance) / current` (strength as a
/// fraction), to within two fixed-point units per axis: the distance goes
/// from `current` to `current - 2 * strength * (current - distance)`, so its
/// error against `distance` shrinks by the factor `1 - 2 * strength` on each
/// relaxation. `bound` bounds the initial error, and the members lie far
/// enough inside the world for the moves not to reach its faces.
pub proof fn lemma_pair_relaxes(m: Molecule, sp: Seq<Sphere>, a: usize, b: usize, bound: int)
    requires
        m.wf(),
        m.spheres@ == seq![a, b],
        a < sp.len(),
        b < sp.len(),
        all_wf(sp),
        !sp[a as int].particle.fixed,
        !sp[b as int].particle.fixed,
        distance_spec(sp[a as int].particle.position, sp[b as int].particle.position) > 0,
        0 <= bound,
        -bound <= distance_spec(sp[a as int].particle.position, sp[b as int].particle.position) - m.distance <= bound,
        sp[a as int].particle.position.within(WORLD_LIMIT - bound),
        sp[b as int].particle.position.within(WORLD_LIMIT - bound),
    ensures
        ({
            let cur = distance_spec(sp[a as int].particle.position, sp[b as int].particle.position);
            let k = cur * SCALE;
            let f = k - 2 * (cur - m.distance) * m.strength;
            let pa = sp[a as int].particle.position;
            let pb = sp[b as int].particle.position;
            let r = m.relax_all(sp);
            let na = r[a as int].particle.position;
            let nb = r[b as int].particle.position;
            &&& r.len() == sp.len()
            &&& forall|i: int| 0 <= i < sp.len() && i != a as int && i != b as int ==> r[i] == sp[i]
            &&& na.x - pa.x == pb.x - nb.x
            &&& na.y - pa.y == pb.y - nb.y
            &&& na.z - pa.z == pb.z - nb.z
            &&& (pa.x - pb.x) * f <= k * (na.x - nb.x) < (pa.x - pb.x) * f + 2 * k
            &&& (pa.y - pb.y) * f <= k * (na.y - nb.y) < (pa.y - pb.y) * f + 2 * k
            &&& (pa.z - pb.z) * f <= k * (na.z - nb.z) < (pa.z - pb.z) * f + 2 * k
        }),
{
    let pa = sp[a as int].particle.position;
    let pb = sp[b as int].particle.position;
    let cur = distance_spec(pa, pb);
    let e = cur - m.distance;
    let st = m.strength as int;
    let (ax, ay, az) = (pa.x - pb.x, pa.y - pb.y, pa.z - pb.z);
    let s2 = ax * ax + ay * ay + az * az;
    assert(ax * ax >= 0 && ay * ay >= 0 && az * az >= 0) by (nonlinear_arith);
    crate::vector::lemma_int_sqrt_bounds(s2 as nat);
    lemma_coord_below_root(ax, cur);
    lemma_coord_below_root(ay, cur);
    lemma_coord_below_root(az, cur);
    lemma_axis_relax(ax, e, st, cur, bound);
    lemma_axis_relax(ay, e, st, cur, bound);
    lemma_axis_relax(az, e, st, cur, bound);
    assert(bound <= WORLD_LIMIT);
    assert(a != b) by {
        if a == b {
            assert(ax == 0 && ay == 0 && az == 0);
            assert(ax * ax == 0 && ay * ay == 0 && az * az == 0) by (nonlinear_arith)
                requires
                    ax == 0,
                    ay == 0,
                    az == 0,
            ;
            assert(s2 == 0);
            assert(int_sqrt(0nat) == 0);
        }
    }
    let cx = correction_coord(ax, e, st, cur);
    let cy = correction_coord(ay, e, st, cur);
    let cz = correction_coord(az, e, st, cur);
    let d = Vec3 { x: cx as i64, y: cy as i64, z: cz as i64 };
    assert(d.x == cx && d.y == cy && d.z == cz);
    assert(negated(d).x == -cx && negated(d).y == -cy && negated(d).z == -cz);
    let relaxed = m.relax_pair(sp, a as int, b as int);
    assert(m.spheres@[0] == a && m.spheres@[1] == b);
    assert(m.relax_all_from(sp, 0, 1) == m.relax_all_from(relaxed, 0, 2));
    assert(m.relax_all_from(relaxed, 0, 2) == m.relax_all_from(relaxed, 1, 2));
    assert(m.relax_all_from(relaxed, 1, 2) == m.relax_all_from(relaxed, 2, 3));
    assert(m.relax_all_from(relaxed, 2, 3) == relaxed);
    let r = m.relax_all(sp);
    let na = r[a as int].particle.position;
    let nb = r[b as int].particle.position;
    assert(r.len() == sp.len());
    assert(na.x == pa.x - correction_coord(ax, e, st, cur));
    assert(nb.x == pb.x + correction_coord(ax, e, st, cur));
    assert(na.x - pa.x == pb.x - nb.x);
}

/// One axis of the relaxation law.
proof fn lemma_axis_relax(ax: int, e: int, st: int, cur: int, bound: int)
    requires
        cur > 0,
        -cur <= ax <= cur,
        -bound <= e <= bound,
        valid_fraction(st),
    ensures
        -bound <= correction_coord(ax, e, st, cur) <= bound,
        ax * (cur * SCALE - 2 * e * st) <= (cur * SCALE) * (ax - 2 * correction_coord(ax, e, st, cur))
            < ax * (cur * SCALE - 2 * e * st) + 2 * (cur * SCALE),
        ax * (cur * SCALE - e * st) <= (cur * SCALE) * (ax - correction_coord(ax, e, st, cur))
            < ax * (cur * SCALE - e * st) + cur * SCALE,
{
    let k = cur * SCALE;
    let q = correction_coord(ax, e, st, cur);
    let abs_e = if e >= 0 {
        e
    } else {
        -e
    };
    assert(k > 0) by (nonlinear_arith)
        requires
            cur > 0,
            k == cur * SCALE,
    ;
    lemma_mul_within(ax, e, cur, abs_e);
    lemma_mul_within(ax * e, st, cur * abs_e, SCALE as int);
    assert(cur * abs_e * SCALE == k * abs_e) by (nonlinear_arith)
        requires
            k == cur * SCALE,
    ;
    assert(ax * e * st == (ax * e) * st) by (nonlinear_arith);
    assert(k * abs_e >= 0) by (nonlinear_arith)
        requires
            k > 0,
            abs_e >= 0,
    ;
    lemma_div_within(ax * e * st, k, abs_e);
    vstd::arithmetic::div_mod::lemma_fundamental_div_mod(ax * e * st, k);
    vstd::arithmetic::div_mod::lemma_mod_bound(ax * e * st, k);
    let md = (ax * e * st) % k;
    assert(ax * (k - 2 * e * st) <= k * (ax - 2 * q) < ax * (k - 2 * e * st) + 2 * k) by (nonlinear_arith)
        requires
            ax * e * st == k * q + md,
            0 <= md < k,
    ;
    assert(ax * (k - e * st) <= k * (ax - q) < ax * (k - e * st) + k) by (nonlinear_arith)
        requires
            ax * e * st == k * q + md,
            0 <= md < k,
    ;
}

/// One distance correction between a free sphere and a fixed one moves only
/// the free one, so that their separation vector is scaled by
/// `1 - strength * (current - distance) / current`, to within one
/// fixed-point unit per axis: the error against `distance` shrinks by the
/// factor `1 - strength`. `bound` bounds the initial error, and the free
/// sphere lies far enough inside the world for the move not to reach its
/// faces.
pub proof fn lemma_pair_relaxes_one_fixed(m: Molecule, sp: Seq<Sphere>, a: usize, b: usize, bound: int)
    requires
        m.wf(),
        a < sp.len(),
        b < sp.len(),
        all_wf(sp),
        sp[a as int].particle.fixed != sp[b as int].particle.fixed,
        distance_spec(sp[a as int].particle.position, sp[b as int].particle.position) > 0,
        0 <= bound,
        -bound <= distance_spec(sp[a as int].particle.position, sp[b as int].particle.position) - m.distance <= bound,
        sp[a as int].particle.position.within(WORLD_LIMIT - bound),
        sp[b as int].particle.position.within(WORLD_LIMIT - bound),
    ensures
        ({
            let cur = distance_spec(sp[a as int].particle.position, sp[b as int].particle.position);
            let k = cur * SCALE;
            let f = k - (cur - m.distance) * m.strength;
            let pa = sp[a as int].particle.position;
            let pb = sp[b as int].particle.position;
            let r = m.relax_pair(sp, a as int, b as int);
            let na = r[a as int].particle.position;
            let nb = r[b as int].particle.position;
            &&& r.len() == sp.len()
            &&& forall|i: int| 0 <= i < sp.len() && i != a as int && i != b as int ==> r[i] == sp[i]
            &&& sp[a as int].particle.fixed ==> na == pa
            &&& sp[b as int].particle.fixed ==> nb == pb
            &&& (pa.x - pb.x) * f <= k * (na.x - nb.x) < (pa.x - pb.x) * f + k
            &&& (pa.y - pb.y) * f <= k * (na.y - nb.y) < (pa.y - pb.y) * f + k
            &&& (pa.z - pb.z) * f <= k * (na.z - nb.z) < (pa.z - pb.z) * f + k
        }),
{
    let pa = sp[a as int].particle.position;
    let pb = sp[b as int].particle.position;
    let cur = distance_spec(pa, pb);
    let e = cur - m.distance;
    let st = m.strength as int;
    let (ax, ay, az) = (pa.x - pb.x, pa.y - pb.y, pa.z - pb.z);
    let s2 = ax * ax + ay * ay + az * az;
    assert(ax * ax >= 0 && ay * ay >= 0 && az * az >= 0) by (nonlinear_arith);
    crate::vector::lemma_int_sqrt_bounds(s2 as nat);
    lemma_coord_below_root(ax, cur);
    lemma_coord_below_root(ay, cur);
    lemma_coord_below_root(az, cur);
    lemma_axis_relax(ax, e, st, cur, bound);
    lemma_axis_relax(ay, e, st, cur, bound);
    lemma_axis_relax(az, e, st, cur, bound);
    assert(bound <= WORLD_LIMIT);
    assert(a != b);
    let cx = correction_coord(ax, e, st, cur);
    let cy = correction_coord(ay, e, st, cur);
    let cz = correction_coord(az, e, st, cur);
    let d = Vec3 { x: cx as i64, y: cy as i64, z: cz as i64 };
    assert(d.x == cx && d.y == cy && d.z == cz);
    assert(negated(d).x == -cx && negated(d).y == -cy && negated(d).z == -cz);
}

} // verus!
