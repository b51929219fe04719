use vstd::prelude::*;

use crate::particle::Sphere;
use crate::vector::{
    clamp_world, floor_div, int_sqrt, lemma_coord_below_root, lemma_div_within, lemma_mul_within,
    Vec3, RADIUS_LIMIT, WORLD_LIMIT,
};

verus! {

/// What every container shape has: a centre and the forced-inside mode.
#[derive(Clone, Copy, Debug)]
pub struct Container {
    pub position: Vec3,
    pub forced_inside: bool,
}

impl Container {
    /// A container centred at `position`, saturated into the world.
    pub fn new(position: Vec3, forced_inside: bool) -> (r: Container)
        ensures
            r.position == position.clamped_sum(Vec3 { x: 0, y: 0, z: 0 }),
            r.forced_inside == forced_inside,
    {
        Container { position: position.add_clamped(Vec3::zero()), forced_inside }
    }

    pub fn get_position(&self) -> (r: Vec3)
        ensures
            r == self.position,
    {
        self.position
    }

    pub fn set_position(&mut self, position: Vec3)
        ensures
            final(self).position == position.clamped_sum(Vec3 { x: 0, y: 0, z: 0 }),
            final(self).forced_inside == old(self).forced_inside,
    {
        self.position = position.add_clamped(Vec3::zero());
    }

    pub fn get_forced_inside(&self) -> (r: bool)
        ensures
            r == self.forced_inside,
    {
        self.forced_inside
    }
}

/// A size is admissible when each extent lies in `[0, 2 * WORLD_LIMIT]`.
pub open spec fn valid_size(size: Vec3) -> bool {
    0 <= size.x <= 2 * WORLD_LIMIT && 0 <= size.y <= 2 * WORLD_LIMIT && 0 <= size.z <= 2
        * WORLD_LIMIT
}

/// One axis of the box clamp: a sphere reaching below `lo` is put on `lo`,
/// one reaching above `hi` on `hi` (the upper face wins when both hold).
pub open spec fn box_axis(p: int, r: int, lo: int, hi: int) -> int {
    if p + r > hi {
        hi - r
    } else if p - r < lo {
        lo + r
    } else {
        p
    }
}

/// The sphere with its centre placed at `p`, unless it is fixed.
pub open spec fn placed(s: Sphere, p: Vec3) -> Sphere {
    if s.particle.fixed {
        s
    } else {
        Sphere { particle: crate::particle::Particle { position: p, ..s.particle }, ..s }
    }
}

/// A box container: `size` holds its full extents.
#[derive(Clone, Copy, Debug)]
pub struct CubeContainer {
    pub container: Container,
    pub size: Vec3,
}

impl CubeContainer {
    pub open spec fn center(self) -> Vec3 {
        self.container.position
    }

    pub open spec fn extents(self) -> Vec3 {
        self.size
    }

    pub open spec fn is_forced_inside(self) -> bool {
        self.container.forced_inside
    }

    pub open spec fn wf(self) -> bool {
        self.container.position.in_world() && valid_size(self.size)
    }

    pub open spec fn lo(self) -> (int, int, int) {
        (
            self.center().x - self.size.x / 2,
            self.center().y - self.size.y / 2,
            self.center().z - self.size.z / 2,
        )
    }

    pub open spec fn hi(self) -> (int, int, int) {
        (
            self.center().x + self.size.x / 2,
            self.center().y + self.size.y / 2,
            self.center().z + self.size.z / 2,
        )
    }

    /// Whether the point lies in the box, faces included.
    pub open spec fn holds_point(self, p: Vec3) -> bool {
        &&& self.lo().0 <= p.x <= self.hi().0
        &&& self.lo().1 <= p.y <= self.hi().1
        &&& self.lo().2 <= p.z <= self.hi().2
    }

    /// The sphere after one collision with this box.
    pub open spec fn collided(self, s: Sphere) -> Sphere {
        let p = s.particle.position;
        let r = s.radius as int;
        if !self.is_forced_inside() && !self.holds_point(p) {
            s
        } else {
            placed(
                s,
                Vec3 {
                    x: clamp_world(box_axis(p.x as int, r, self.lo().0, self.hi().0)) as i64,
                    y: clamp_world(box_axis(p.y as int, r, self.lo().1, self.hi().1)) as i64,
                    z: clamp_world(box_axis(p.z as int, r, self.lo().2, self.hi().2)) as i64,
                },
            )
        }
    }

    pub fn new(position: Vec3, size: Vec3, forced_inside: bool) -> (r: CubeContainer)
        requires
            valid_size(size),
        ensures
            r.wf(),
            r.center() == position.clamped_sum(Vec3 { x: 0, y: 0, z: 0 }),
            r.extents() == size,
            r.is_forced_inside() == forced_inside,
    {
        CubeContainer { container: Container::new(position, forced_inside), size }
    }

    pub fn get_position(&self) -> (r: Vec3)
        ensures
            r == self.center(),
    {
        self.container.position
    }

    pub fn set_position(&mut self, position: Vec3)
        ensures
            final(self).center() == position.clamped_sum(Vec3 { x: 0, y: 0, z: 0 }),
            final(self).extents() == old(self).extents(),
            final(self).is_forced_inside() == old(self).is_forced_inside(),
    {
        self.container.set_position(position);
    }

    pub fn get_size(&self) -> (r: Vec3)
        ensures
            r == self.extents(),
    {
        self.size
    }

    pub fn set_size(&mut self, size: Vec3)
        requires
            valid_size(size),
        ensures
            final(self).center() == old(self).center(),
            final(self).extents() == size,
            final(self).is_forced_inside() == old(self).is_forced_inside(),
    {
        self.size = size;
    }

    pub fn get_forced_inside(&self) -> (r: bool)
        ensures
            r == self.is_forced_inside(),
    {
        self.container.forced_inside
    }

    /// Clamps the sphere into the box, axis by axis. Unless the box is in
    /// forced-inside mode, a sphere whose centre lies outside is left alone.
    pub fn collide_with(&self, sphere: &mut Sphere)
        requires
            self.wf(),
            old(sphere).wf(),
        ensures
            final(sphere).wf(),
            *final(sphere) == self.collided(*old(sphere)),
    {
        let p = sphere.particle.position;
        let r = sphere.radius;
        let c = self.container.position;
        let lo = Vec3 { x: c.x - self.size.x / 2, y: c.y - self.size.y / 2, z: c.z - self.size.z / 2 };
        let hi = Vec3 { x: c.x + self.size.x / 2, y: c.y + self.size.y / 2, z: c.z + self.size.z / 2 };
        let inside = lo.x <= p.x && p.x <= hi.x && lo.y <= p.y && p.y <= hi.y && lo.z <= p.z && p.z
            <= hi.z;
        if !self.container.forced_inside && !inside {
            return ;
        }
        if !sphere.particle.fixed {
            let target = Vec3 {
                x: box_axis_step(p.x, r, lo.x, hi.x),
                y: box_axis_step(p.y, r, lo.y, hi.y),
                z: box_axis_step(p.z, r, lo.z, hi.z),
            };
            sphere.particle.position = target.add_clamped(Vec3::zero());
        }
    }
}

fn box_axis_step(p: i64, r: i64, lo: i64, hi: i64) -> (res: i64)
    requires
        -WORLD_LIMIT <= p <= WORLD_LIMIT,
        0 <= r <= RADIUS_LIMIT,
        -2 * WORLD_LIMIT <= lo <= 2 * WORLD_LIMIT,
        -2 * WORLD_LIMIT <= hi <= 2 * WORLD_LIMIT,
    ensures
        res == box_axis(p as int, r as int, lo as int, hi as int),
{
    if p + r > hi {
        hi - r
    } else if p - r < lo {
        lo + r
    } else {
        p
    }
}

/// A ball container: `size` holds its diameter on every axis.
#[derive(Clone, Copy, Debug)]
pub struct SphereContainer {
    pub container: Container,
    pub size: Vec3,
}

/// One coordinate of the inward push out of a ball's wall.
pub open spec fn inward_coord(axis: int, penetration: int, d: int) -> int {
    (axis * penetration) / d
}

impl SphereContainer {
    pub open spec fn center(self) -> Vec3 {
        self.container.position
    }

    pub open spec fn extents(self) -> Vec3 {
        self.size
    }

    pub open spec fn is_forced_inside(self) -> bool {
        self.container.forced_inside
    }

    pub open spec fn radius(self) -> int {
        self.size.x / 2
    }

    pub open spec fn wf(self) -> bool {
        self.container.position.in_world() && valid_size(self.size)
    }

    /// The sphere after one collision with this ball.
    pub open spec fn collided(self, s: Sphere) -> Sphere {
        let p = s.particle.position;
        let c = self.center();
        let d = int_sqrt(
            ((p.x - c.x) * (p.x - c.x) + (p.y - c.y) * (p.y - c.y) + (p.z - c.z) * (p.z - c.z)) as nat,
        ) as int;
        let pen = d + s.radius - self.radius();
        if !self.is_forced_inside() && d > self.radius() {
            s
        } else if pen > 0 && d > 0 {
            placed(
                s,
                Vec3 {
                    x: clamp_world(p.x - inward_coord(p.x - c.x, pen, d)) as i64,
                    y: clamp_world(p.y - inward_coord(p.y - c.y, pen, d)) as i64,
                    z: clamp_world(p.z - inward_coord(p.z - c.z, pen, d)) as i64,
                },
            )
        } else {
            s
        }
    }

    pub fn new(position: Vec3, size: Vec3, forced_inside: bool) -> (r: SphereContainer)
        requires
            valid_size(size),
        ensures
            r.wf(),
            r.center() == position.clamped_sum(Vec3 { x: 0, y: 0, z: 0 }),
            r.extents() == size,
            r.is_forced_inside() == forced_inside,
    {
        SphereContainer { container: Container::new(position, forced_inside), size }
    }

    pub fn get_position(&self) -> (r: Vec3)
        ensures
            r == self.center(),
    {
        self.container.position
    }

    pub fn set_position(&mut self, position: Vec3)
        ensures
            final(self).center() == position.clamped_sum(Vec3 { x: 0, y: 0, z: 0 }),
            final(self).extents() == old(self).extents(),
            final(self).is_forced_inside() == old(self).is_forced_inside(),
    {
        self.container.set_position(position);
    }

    pub fn get_size(&self) -> (r: Vec3)
        ensures
            r == self.extents(),
    {
        self.size
    }

    pub fn set_size(&mut self, size: Vec3)
        requires
            valid_size(size),
        ensures
            final(self).center() == old(self).center(),
            final(self).extents() == size,
            final(self).is_forced_inside() == old(self).is_forced_inside(),
    {
        self.size = size;
    }

    pub fn get_forced_inside(&self) -> (r: bool)
        ensures
            r == self.is_forced_inside(),
    {
        self.container.forced_inside
    }

    /// Pushes a sphere that reaches through the ball's wall back inside,
    /// along the line from the ball's centre. Unless the ball is in
    /// forced-inside mode, a sphere whose centre lies outside is left alone;
    /// a sphere centred exactly on the ball's centre has no direction to be
    /// pushed in and is left alone too.
    pub fn collide_with(&self, sphere: &mut Sphere)
        requires
            self.wf(),
            old(sphere).wf(),
        ensures
            final(sphere).wf(),
            *final(sphere) == self.collided(*old(sphere)),
    {
        let p = sphere.particle.position;
        let axis = p.sub(self.container.position);
        let d = axis.norm();
        let radius = self.size.x / 2;
        if !self.container.forced_inside && d > radius {
            return ;
        }
        let pen = d + sphere.radius - radius;
        if pen > 0 && d > 0 && !sphere.particle.fixed {
            proof {
                let (ax, ay, az) = (axis.x as int, axis.y as int, axis.z as int);
                assert(ax * ax >= 0 && ay * ay >= 0 && az * az >= 0) by (nonlinear_arith);
                lemma_coord_below_root(ax, d as int);
                lemma_coord_below_root(ay, d as int);
                lemma_coord_below_root(az, d as int);
            }
            let target = Vec3 {
                x: p.x - inward_step(axis.x, pen, d),
                y: p.y - inward_step(axis.y, pen, d),
                z: p.z - inward_step(axis.z, pen, d),
            };
            sphere.particle.position = target.add_clamped(Vec3::zero());
        }
    }
}

fn inward_step(axis: i64, pen: i64, d: i64) -> (r: i64)
    requires
        0 < d < 1_099_511_627_776,
        0 < pen < 1_099_511_627_776 + RADIUS_LIMIT,
        -d <= axis <= d,
    ensures
        r == inward_coord(axis as int, pen as int, d as int),
        -pen <= r <= pen,
{
    proof {
        lemma_mul_within(axis as int, pen as int, d as int, pen as int);
        lemma_mul_within(d as int, pen as int, 1_099_511_627_776, 1_099_511_627_776 + RADIUS_LIMIT);
        assert(d * pen >= 0) by (nonlinear_arith)
            requires
                d > 0,
                pen > 0,
        ;
    }
    let num = axis as i128 * pen as i128;
    proof {
        lemma_div_within(num as int, d as int, pen as int);
    }
    floor_div(num, d as i128) as i64
}

/// The closed set of container shapes a simulation holds.
#[derive(Clone, Copy, Debug)]
pub enum ContainerShape {
    Cube(CubeContainer),
    Ball(SphereContainer),
}

impl ContainerShape {
    pub open spec fn wf(self) -> bool {
        match self {
            ContainerShape::Cube(c) => c.wf(),
            ContainerShape::Ball(b) => b.wf(),
        }
    }

    pub open spec fn collided(self, s: Sphere) -> Sphere {
        match self {
            ContainerShape::Cube(c) => c.collided(s),
            ContainerShape::Ball(b) => b.collided(s),
        }
    }

    pub open spec fn center(self) -> Vec3 {
        match self {
            ContainerShape::Cube(c) => c.center(),
            ContainerShape::Ball(b) => b.center(),
        }
    }

    pub open spec fn extents(self) -> Vec3 {
        match self {
            ContainerShape::Cube(c) => c.extents(),
            ContainerShape::Ball(b) => b.extents(),
        }
    }

    /// Resolves the sphere against whichever shape this is.
    pub fn collide_with(&self, sphere: &mut Sphere)
        requires
            self.wf(),
            old(sphere).wf(),
        ensures
            final(sphere).wf(),
            *final(sphere) == self.collided(*old(sphere)),
    {
        match self {
            ContainerShape::Cube(c) => c.collide_with(sphere),
            ContainerShape::Ball(b) => b.collide_with(sphere),
        }
    }

    pub fn get_position(&self) -> (r: Vec3)
        ensures
            r == self.center(),
    {
        match self {
            ContainerShape::Cube(c) => c.get_position(),
            ContainerShape::Ball(b) => b.get_position(),
        }
    }

    pub fn get_size(&self) -> (r: Vec3)
        ensures
            r == self.extents(),
    {
        match self {
            ContainerShape::Cube(c) => c.get_size(),
            ContainerShape::Ball(b) => b.get_size(),
        }
    }
}

impl Sphere {
    /// Resolves this sphere against a container.
    pub fn collide_with_container(&mut self, container: &ContainerShape)
        requires
            old(self).wf(),
            container.wf(),
        ensures
            final(self).wf(),
            *final(self) == container.collided(*old(self)),
    {
        container.collide_with(self);
    }
}

/// A box that is not in forced-inside mode never moves a sphere whose centre
/// lies outside it.
pub proof fn lemma_cube_ignores_outside(c: CubeContainer, s: Sphere)
    requires
        !c.is_forced_inside(),
        !c.holds_point(s.particle.position),
    ensures
        c.collided(s) == s,
{
}

proof fn lemma_box_axis_settles(p: int, r: int, lo: int, hi: int)
    requires
        0 <= r,
        lo + 2 * r <= hi,
        -WORLD_LIMIT <= lo,
        hi <= WORLD_LIMIT,
    ensures
        lo + r <= box_axis(p, r, lo, hi) <= hi - r,
        clamp_world(box_axis(p, r, lo, hi)) == box_axis(p, r, lo, hi),
        box_axis(box_axis(p, r, lo, hi), r, lo, hi) == box_axis(p, r, lo, hi),
{
}

/// When a sphere fits in a box that lies inside the world and the box acts on
/// it (forced-inside mode, or its centre already inside), one collision leaves
/// no penetration: on each axis the sphere lies between the faces. A second
/// collision changes nothing more.
pub proof fn lemma_cube_settles(c: CubeContainer, s: Sphere)
    requires
        c.wf(),
        s.wf(),
        c.is_forced_inside() || c.holds_point(s.particle.position),
        s.radius <= c.extents().x / 2,
        s.radius <= c.extents().y / 2,
        s.radius <= c.extents().z / 2,
        -WORLD_LIMIT <= c.lo().0 && c.hi().0 <= WORLD_LIMIT,
        -WORLD_LIMIT <= c.lo().1 && c.hi().1 <= WORLD_LIMIT,
        -WORLD_LIMIT <= c.lo().2 && c.hi().2 <= WORLD_LIMIT,
    ensures
        !s.particle.fixed ==> {
            let p = c.collided(s).particle.position;
            &&& c.lo().0 + s.radius <= p.x <= c.hi().0 - s.radius
            &&& c.lo().1 + s.radius <= p.y <= c.hi().1 - s.radius
            &&& c.lo().2 + s.radius <= p.z <= c.hi().2 - s.radius
        },
        c.collided(c.collided(s)) == c.collided(s),
{
    let p = s.particle.position;
    let r = s.radius as int;
    lemma_box_axis_settles(p.x as int, r, c.lo().0, c.hi().0);
    lemma_box_axis_settles(p.y as int, r, c.lo().1, c.hi().1);
    lemma_box_axis_settles(p.z as int, r, c.lo().2, c.hi().2);
    if !s.particle.fixed {
        let q = c.collided(s).particle.position;
        assert(c.holds_point(q));
        lemma_box_axis_settles(q.x as int, r, c.lo().0, c.hi().0);
    }
}

} // verus!
