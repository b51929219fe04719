use vstd::prelude::*;

use crate::vector::{
    clamp_int, clamp_to, clamp_world, coord_in_world, floor_div, int_sqrt, lemma_coord_below_root,
    lemma_div_within, lemma_mul_within,
    Vec3, ACC_LIMIT, RADIUS_LIMIT, SCALE, WORLD_LIMIT,
};

verus! {

/// Largest integration step, in fixed-point seconds.
pub const MAX_DT: i64 = 1_000_000_000;

/// A point mass integrated with position Verlet.
#[derive(Clone, Copy, Debug)]
pub struct Particle {
    pub id: u64,
    pub updating_enabled: bool,
    pub previous_position: Vec3,
    pub position: Vec3,
    pub velocity: Vec3,
    pub acceleration: Vec3,
    pub fixed: bool,
}

/// One Verlet coordinate: `p + (p - prev) + acc * dt^2`, saturated.
pub open spec fn verlet_coord(p: int, prev: int, acc: int, dt: int) -> int {
    clamp_world(p + (p - prev) + (acc * dt * dt) / (SCALE * SCALE))
}

/// Velocity coordinate, in fixed-point units per second: `(p - prev) / dt`.
pub open spec fn velocity_coord(p: int, prev: int, dt: int) -> int {
    ((p - prev) * SCALE) / dt
}

pub open spec fn acc_sum(a: Vec3, f: Vec3) -> Vec3 {
    Vec3 {
        x: clamp_int(a.x + f.x, ACC_LIMIT as int) as i64,
        y: clamp_int(a.y + f.y, ACC_LIMIT as int) as i64,
        z: clamp_int(a.z + f.z, ACC_LIMIT as int) as i64,
    }
}

pub open spec fn valid_dt(dt: int) -> bool {
    0 < dt <= MAX_DT
}

impl Particle {
    pub open spec fn wf(self) -> bool {
        self.position.in_world() && self.previous_position.in_world() && self.acceleration.within(
            ACC_LIMIT as int,
        )
    }

    /// Where the position goes on one integration step while updating is on.
    pub open spec fn verlet_position(self, dt: int) -> Vec3 {
        Vec3 {
            x: verlet_coord(
                self.position.x as int,
                self.previous_position.x as int,
                self.acceleration.x as int,
                dt,
            ) as i64,
            y: verlet_coord(
                self.position.y as int,
                self.previous_position.y as int,
                self.acceleration.y as int,
                dt,
            ) as i64,
            z: verlet_coord(
                self.position.z as int,
                self.previous_position.z as int,
                self.acceleration.z as int,
                dt,
            ) as i64,
        }
    }

    /// The particle after one integration step of length `dt`.
    pub open spec fn integrated(self, dt: int) -> Particle {
        if self.fixed {
            self
        } else {
            let p = if self.updating_enabled {
                self.verlet_position(dt)
            } else {
                self.position
            };
            Particle {
                previous_position: self.position,
                position: p,
                velocity: Vec3 {
                    x: velocity_coord(p.x as int, self.position.x as int, dt) as i64,
                    y: velocity_coord(p.y as int, self.position.y as int, dt) as i64,
                    z: velocity_coord(p.z as int, self.position.z as int, dt) as i64,
                },
                acceleration: Vec3 { x: 0, y: 0, z: 0 },
                ..self
            }
        }
    }

    /// The particle displaced by `v`, unless it is fixed.
    pub open spec fn moved(self, v: Vec3) -> Particle {
        if self.fixed {
            self
        } else {
            Particle { position: self.position.clamped_sum(v), ..self }
        }
    }

    /// A particle at `position` (saturated into the world) whose previous
    /// position is the same point, so that it starts at rest.
    pub fn new(id: u64, position: Vec3, velocity: Vec3, acceleration: Vec3, fixed: bool) -> (r:
        Particle)
        ensures
            r.wf(),
            r.id == id,
            r.updating_enabled,
            r.position == position.clamped_sum(Vec3 { x: 0, y: 0, z: 0 }),
            r.previous_position == r.position,
            r.velocity == velocity,
            r.acceleration == acc_sum(Vec3 { x: 0, y: 0, z: 0 }, acceleration),
            r.fixed == fixed,
    {
        let p = position.add_clamped(Vec3::zero());
        let a = Vec3 {
            x: clamp_to(acceleration.x as i128, ACC_LIMIT),
            y: clamp_to(acceleration.y as i128, ACC_LIMIT),
            z: clamp_to(acceleration.z as i128, ACC_LIMIT),
        };
        Particle {
            id,
            updating_enabled: true,
            previous_position: p,
            position: p,
            velocity,
            acceleration: a,
            fixed,
        }
    }

    /// Accumulates `force` (an acceleration) into this step's acceleration.
    pub fn add_force(&mut self, force: Vec3)
        requires
            old(self).wf(),
        ensures
            final(self).wf(),
            *final(self) == (Particle { acceleration: acc_sum(old(self).acceleration, force), ..*old(self) }),
    {
        let a = self.acceleration;
        self.acceleration = Vec3 {
            x: clamp_to(a.x as i128 + force.x as i128, ACC_LIMIT),
            y: clamp_to(a.y as i128 + force.y as i128, ACC_LIMIT),
            z: clamp_to(a.z as i128 + force.z as i128, ACC_LIMIT),
        };
    }

    /// One Verlet step of length `dt`: a fixed particle stays as it is;
    /// otherwise the position advances (unless updating is off), the history
    /// rolls, the velocity is recomputed and the acceleration resets.
    pub fn update_position(&mut self, dt: i64)
        requires
            old(self).wf(),
            valid_dt(dt as int),
        ensures
            final(self).wf(),
            *final(self) == old(self).integrated(dt as int),
    {
        if !self.fixed {
            let old_position = self.position;
            if self.updating_enabled {
                self.position = Vec3 {
                    x: verlet_step(self.position.x, self.previous_position.x, self.acceleration.x, dt),
                    y: verlet_step(self.position.y, self.previous_position.y, self.acceleration.y, dt),
                    z: verlet_step(self.position.z, self.previous_position.z, self.acceleration.z, dt),
                };
            }
            self.previous_position = old_position;
            self.velocity = Vec3 {
                x: velocity_step(self.position.x, old_position.x, dt),
                y: velocity_step(self.position.y, old_position.y, dt),
                z: velocity_step(self.position.z, old_position.z, dt),
            };
            self.acceleration = Vec3::zero();
        }
    }

    /// Displaces the position by `v`, unless the particle is fixed.
    pub fn move_by(&mut self, v: Vec3)
        requires
            old(self).wf(),
        ensures
            final(self).wf(),
            *final(self) == old(self).moved(v),
    {
        if !self.fixed {
            self.position = self.position.add_clamped(v);
        }
    }

    /// Displaces the position and the previous position together by
    /// `offset`, so that the motion the particle had is kept and none is
    /// added (each saturating at the world's faces).
    pub fn add_offset(&mut self, offset: Vec3)
        requires
            old(self).wf(),
        ensures
            final(self).wf(),
            *final(self) == (Particle {
                position: old(self).position.clamped_sum(offset),
                previous_position: old(self).previous_position.clamped_sum(offset),
                ..*old(self)
            }),
    {
        self.position = self.position.add_clamped(offset);
        self.previous_position = self.previous_position.add_clamped(offset);
    }

    pub fn set_updating_enabled(&mut self, enabled: bool)
        ensures
            *final(self) == (Particle { updating_enabled: enabled, ..*old(self) }),
    {
        self.updating_enabled = enabled;
    }
}

fn verlet_step(p: i64, prev: i64, acc: i64, dt: i64) -> (r: i64)
    requires
        coord_in_world(p as int),
        coord_in_world(prev as int),
        -ACC_LIMIT <= acc <= ACC_LIMIT,
        valid_dt(dt as int),
    ensures
        r == verlet_coord(p as int, prev as int, acc as int, dt as int),
        coord_in_world(r as int),
{
    proof {
        lemma_mul_within(acc as int, dt as int, ACC_LIMIT as int, MAX_DT as int);
    }
    let acc_dt = acc as i128 * dt as i128;
    proof {
        lemma_mul_within(acc_dt as int, dt as int, 100_000_000_000_000_000_000, MAX_DT as int);
    }
    let acc_dt2 = acc_dt * dt as i128;
    let s2: i128 = 1_000_000_000_000;
    assert(s2 == SCALE * SCALE);
    let drift = floor_div(acc_dt2, s2);
    proof {
        lemma_div_within(acc_dt2 as int, s2 as int, 100_000_000_000_000_000_000_000_000_000);
    }
    clamp_to(2 * p as i128 - prev as i128 + drift, WORLD_LIMIT)
}

fn velocity_step(p: i64, prev: i64, dt: i64) -> (r: i64)
    requires
        coord_in_world(p as int),
        coord_in_world(prev as int),
        valid_dt(dt as int),
    ensures
        r == velocity_coord(p as int, prev as int, dt as int),
{
    proof {
        lemma_mul_within(p - prev, SCALE as int, 2 * WORLD_LIMIT, SCALE as int);
    }
    let delta = (p as i128 - prev as i128) * SCALE as i128;
    proof {
        lemma_div_within(delta as int, dt as int, 200_000_000_000_000_000);
    }
    floor_div(delta, dt as i128) as i64
}

/// A particle with a radius: the one collidable entity.
#[derive(Clone, Copy, Debug)]
pub struct Sphere {
    pub particle: Particle,
    pub radius: i64,
}

/// Integer distance between two in-world points, rounded down.
pub open spec fn distance_spec(a: Vec3, b: Vec3) -> int {
    int_sqrt(
        ((a.x - b.x) * (a.x - b.x) + (a.y - b.y) * (a.y - b.y) + (a.z - b.z) * (a.z - b.z)) as nat,
    ) as int
}

/// How far two spheres interpenetrate (positive when they overlap).
pub open spec fn overlap_spec(a: Sphere, b: Sphere) -> int {
    a.radius + b.radius - distance_spec(a.particle.position, b.particle.position)
}

/// One coordinate of the push that separates two overlapping spheres:
/// the separation axis scaled to half the overlap.
pub open spec fn push_coord(axis: int, overlap: int, d: int) -> int {
    (axis * overlap) / (2 * d)
}

/// The displacement given to the first of two overlapping spheres; the second
/// gets its negation. Coincident centres are separated along the x axis.
pub open spec fn contact_push(a: Sphere, b: Sphere) -> Vec3 {
    let d = distance_spec(a.particle.position, b.particle.position);
    let ov = overlap_spec(a, b);
    let pa = a.particle.position;
    let pb = b.particle.position;
    if d == 0 {
        Vec3 { x: (ov / 2) as i64, y: 0, z: 0 }
    } else {
        Vec3 {
            x: push_coord(pa.x - pb.x, ov, d) as i64,
            y: push_coord(pa.y - pb.y, ov, d) as i64,
            z: push_coord(pa.z - pb.z, ov, d) as i64,
        }
    }
}

pub open spec fn negated(v: Vec3) -> Vec3 {
    Vec3 { x: -v.x as i64, y: -v.y as i64, z: -v.z as i64 }
}

impl Sphere {
    pub open spec fn wf(self) -> bool {
        self.particle.wf() && 0 <= self.radius <= RADIUS_LIMIT
    }

    pub open spec fn moved(self, v: Vec3) -> Sphere {
        Sphere { particle: self.particle.moved(v), ..self }
    }

    pub fn new(id: u64, position: Vec3, radius: i64, velocity: Vec3, acceleration: Vec3, fixed: bool) -> (r:
        Sphere)
        requires
            0 <= radius <= RADIUS_LIMIT,
        ensures
            r.wf(),
            r.radius == radius,
            r.particle.id == id,
            r.particle.updating_enabled,
            r.particle.position == position.clamped_sum(Vec3 { x: 0, y: 0, z: 0 }),
            r.particle.previous_position == r.particle.position,
            r.particle.velocity == velocity,
            r.particle.acceleration == acc_sum(Vec3 { x: 0, y: 0, z: 0 }, acceleration),
            r.particle.fixed == fixed,
    {
        Sphere { particle: Particle::new(id, position, velocity, acceleration, fixed), radius }
    }

    pub fn get_position(&self) -> (r: Vec3)
        ensures
            r == self.particle.position,
    {
        self.particle.position
    }

    /// `Particle::add_offset` on this sphere's particle.
    pub fn add_offset(&mut self, offset: Vec3)
        requires
            old(self).wf(),
        ensures
            final(self).wf(),
            final(self).radius == old(self).radius,
            final(self).particle == (Particle {
                position: old(self).particle.position.clamped_sum(offset),
                previous_position: old(self).particle.previous_position.clamped_sum(offset),
                ..old(self).particle
            }),
    {
        self.particle.add_offset(offset);
    }

    /// `Particle::add_force` on this sphere's particle.
    pub fn add_force(&mut self, force: Vec3)
        requires
            old(self).wf(),
        ensures
            final(self).wf(),
            *final(self) == (Sphere {
                particle: Particle { acceleration: acc_sum(old(self).particle.acceleration, force), ..old(self).particle },
                ..*old(self)
            }),
    {
        self.particle.add_force(force);
    }

    /// `Particle::update_position` on this sphere's particle.
    pub fn update_position(&mut self, dt: i64)
        requires
            old(self).wf(),
            valid_dt(dt as int),
        ensures
            final(self).wf(),
            *final(self) == (Sphere { particle: old(self).particle.integrated(dt as int), ..*old(self) }),
    {
        self.particle.update_position(dt);
    }

    /// `Particle::move_by` on this sphere's particle.
    pub fn move_by(&mut self, v: Vec3)
        requires
            old(self).wf(),
        ensures
            final(self).wf(),
            *final(self) == old(self).moved(v),
    {
        self.particle.move_by(v);
    }

    /// `Particle::set_updating_enabled` on this sphere's particle.
    pub fn set_updating_enabled(&mut self, enabled: bool)
        ensures
            *final(self) == (Sphere {
                particle: Particle { updating_enabled: enabled, ..old(self).particle },
                ..*old(self)
            }),
    {
        self.particle.set_updating_enabled(enabled);
    }

    /// Puts the centre at `position`, saturated into the world.
    pub fn set_position(&mut self, position: Vec3)
        requires
            old(self).wf(),
        ensures
            final(self).wf(),
            *final(self) == (Sphere {
                particle: Particle {
                    position: position.clamped_sum(Vec3 { x: 0, y: 0, z: 0 }),
                    ..old(self).particle
                },
                ..*old(self)
            }),
    {
        self.particle.position = position.add_clamped(Vec3::zero());
    }

    /// Resolves an overlap with `other`: when the spheres interpenetrate, each
    /// moves by half the overlap along the line between their centres, this
    /// one away from `other` and `other` the opposite way (a fixed one stays).
    pub fn collide_with_sphere(&mut self, other: &mut Sphere)
        requires
            old(self).wf(),
            old(other).wf(),
        ensures
            final(self).wf(),
            final(other).wf(),
            overlap_spec(*old(self), *old(other)) > 0 ==> {
                &&& *final(self) == old(self).moved(contact_push(*old(self), *old(other)))
                &&& *final(other) == old(other).moved(
                    negated(contact_push(*old(self), *old(other))),
                )
            },
            overlap_spec(*old(self), *old(other)) <= 0 ==> {
                &&& *final(self) == *old(self)
                &&& *final(other) == *old(other)
            },
    {
        let axis = self.particle.position.sub(other.particle.position);
        let d = axis.norm();
        let overlap = self.radius - d + other.radius;
        if overlap > 0 {
            proof {
                let (ax, ay, az) = (axis.x as int, axis.y as int, axis.z as int);
                assert(ax * ax >= 0 && ay * ay >= 0 && az * az >= 0) by (nonlinear_arith);
                lemma_coord_below_root(ax, d as int);
                lemma_coord_below_root(ay, d as int);
                lemma_coord_below_root(az, d as int);
            }
            let push = if d == 0 {
                Vec3 { x: overlap / 2, y: 0, z: 0 }
            } else {
                Vec3 {
                    x: push_step(axis.x, overlap, d),
                    y: push_step(axis.y, overlap, d),
                    z: push_step(axis.z, overlap, d),
                }
            };
            self.particle.move_by(push);
            other.particle.move_by(push.neg());
        }
    }
}

/// `push_coord` on machine integers, for a coordinate of an axis of length `d`.
fn push_step(axis: i64, overlap: i64, d: i64) -> (r: i64)
    requires
        0 < d < 1_099_511_627_776,
        0 < overlap <= 2 * RADIUS_LIMIT,
        -d <= axis <= d,
    ensures
        r == push_coord(axis as int, overlap as int, d as int),
        -overlap <= r <= overlap,
{
    proof {
        lemma_mul_within(axis as int, overlap as int, d as int, overlap as int);
        lemma_mul_within(d as int, overlap as int, 1_099_511_627_776, 2 * RADIUS_LIMIT);
    }
    let num = axis as i128 * overlap as i128;
    proof {
        assert((2 * d) * overlap == 2 * (d * overlap)) by (nonlinear_arith);
        assert(d * overlap >= 0) by (nonlinear_arith)
            requires
                d > 0,
                overlap > 0,
        ;
        lemma_div_within(num as int, 2 * d as int, overlap as int);
    }
    floor_div(num, 2 * d as i128) as i64
}

/// Resolving an overlap puts two free spheres at the sum of their radii: the
/// new separation vector is the old one scaled by `(r1 + r2) / d`, where `d`
/// is the old (rounded-down) distance, to within two fixed-point units per
/// axis from below; and each centre moves by the same push, the axis scaled to
/// half the overlap, in opposite directions.
pub proof fn lemma_contact_separates(a: Sphere, b: Sphere)
    requires
        a.wf(),
        b.wf(),
        !a.particle.fixed,
        !b.particle.fixed,
        a.particle.position.within(WORLD_LIMIT - 2 * RADIUS_LIMIT),
        b.particle.position.within(WORLD_LIMIT - 2 * RADIUS_LIMIT),
        distance_spec(a.particle.position, b.particle.position) > 0,
        overlap_spec(a, b) > 0,
    ensures
        ({
            let d = distance_spec(a.particle.position, b.particle.position);
            let reach = a.radius + b.radius;
            let push = contact_push(a, b);
            let pa = a.particle.position;
            let pb = b.particle.position;
            let na = a.moved(push).particle.position;
            let nb = b.moved(negated(push)).particle.position;
            &&& na.x == pa.x + push.x && na.y == pa.y + push.y && na.z == pa.z + push.z
            &&& nb.x == pb.x - push.x && nb.y == pb.y - push.y && nb.z == pb.z - push.z
            &&& push.x == push_coord(pa.x - pb.x, reach - d, d)
            &&& push.y == push_coord(pa.y - pb.y, reach - d, d)
            &&& push.z == push_coord(pa.z - pb.z, reach - d, d)
            &&& (pa.x - pb.x) * reach - 2 * d < d * (na.x - nb.x) <= (pa.x - pb.x) * reach
            &&& (pa.y - pb.y) * reach - 2 * d < d * (na.y - nb.y) <= (pa.y - pb.y) * reach
            &&& (pa.z - pb.z) * reach - 2 * d < d * (na.z - nb.z) <= (pa.z - pb.z) * reach
        }),
{
    let pa = a.particle.position;
    let pb = b.particle.position;
    let d = distance_spec(pa, pb);
    let ov = overlap_spec(a, b);
    let (ax, ay, az) = (pa.x - pb.x, pa.y - pb.y, pa.z - pb.z);
    let s = ax * ax + ay * ay + az * az;
    assert(ax * ax >= 0 && ay * ay >= 0 && az * az >= 0) by (nonlinear_arith);
    crate::vector::lemma_int_sqrt_bounds(s as nat);
    lemma_coord_below_root(ax, d);
    lemma_coord_below_root(ay, d);
    lemma_coord_below_root(az, d);
    lemma_axis_push(ax, ov, d);
    lemma_axis_push(ay, ov, d);
    lemma_axis_push(az, ov, d);
}

/// Two free spheres with coincident centres are pushed apart along the x
/// axis, each by half the overlap (rounded down), so their separation becomes
/// the sum of their radii, less one unit when that sum is odd.
pub proof fn lemma_coincident_contact_separates(a: Sphere, b: Sphere)
    requires
        a.wf(),
        b.wf(),
        !a.particle.fixed,
        !b.particle.fixed,
        a.particle.position.within(WORLD_LIMIT - 2 * RADIUS_LIMIT),
        a.particle.position == b.particle.position,
        a.radius + b.radius > 0,
    ensures
        overlap_spec(a, b) == a.radius + b.radius,
        ({
            let na = a.moved(contact_push(a, b)).particle.position;
            let nb = b.moved(negated(contact_push(a, b))).particle.position;
            &&& na.x - nb.x == 2 * ((a.radius + b.radius) / 2)
            &&& na.y == nb.y
            &&& na.z == nb.z
        }),
{
    let p = a.particle.position;
    assert((p.x - p.x) * (p.x - p.x) + (p.y - p.y) * (p.y - p.y) + (p.z - p.z) * (p.z - p.z) == 0)
        by (nonlinear_arith);
    assert(int_sqrt(0nat) == 0);
}

/// One axis of the contact law: with `q` the push on that axis, the axis
/// after both moves, times `d`, lies within `2d` below the axis times `d + ov`.
proof fn lemma_axis_push(ax: int, ov: int, d: int)
    requires
        d > 0,
        0 < ov <= 2 * RADIUS_LIMIT,
        -d <= ax <= d,
    ensures
        -ov <= push_coord(ax, ov, d) <= ov,
        ax * (d + ov) - 2 * d < d * (ax + 2 * push_coord(ax, ov, d)) <= ax * (d + ov),
{
    let q = push_coord(ax, ov, d);
    vstd::arithmetic::div_mod::lemma_fundamental_div_mod(ax * ov, 2 * d);
    vstd::arithmetic::div_mod::lemma_mod_bound(ax * ov, 2 * d);
    lemma_mul_within(ax, ov, d, ov);
    assert((2 * d) * ov == 2 * (d * ov)) by (nonlinear_arith);
    assert(d * ov >= 0) by (nonlinear_arith)
        requires
            d > 0,
            ov > 0,
    ;
    lemma_div_within(ax * ov, 2 * d, ov);
    let m = (ax * ov) % (2 * d);
    assert(ax * (d + ov) - 2 * d < d * (ax + 2 * q) <= ax * (d + ov)) by (nonlinear_arith)
        requires
            ax * ov == (2 * d) * q + m,
            0 <= m < 2 * d,
    ;
}

} // verus!
