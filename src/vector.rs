use vstd::prelude::*;

verus! {

/// Fixed-point units per world unit: a coordinate of `SCALE` is one world unit.
pub const SCALE: i64 = 1_000_000;

/// Half the side of the simulated world, in fixed-point units.
/// Every position lies in `[-WORLD_LIMIT, WORLD_LIMIT]` on each axis and
/// saturates at that bound.
pub const WORLD_LIMIT: i64 = 100_000_000_000;

/// Largest magnitude an accumulated acceleration component may reach.
pub const ACC_LIMIT: i64 = 100_000_000_000;

/// Largest sphere radius the model admits, in fixed-point units.
pub const RADIUS_LIMIT: i64 = 10_000_000_000;

/// A 3-vector of fixed-point coordinates.
#[derive(Clone, Copy, Debug, PartialEq, Eq, Structural)]
pub struct Vec3 {
    pub x: i64,
    pub y: i64,
    pub z: i64,
}

pub open spec fn clamp_int(a: int, lim: int) -> int {
    if a < -lim {
        -lim
    } else if a > lim {
        lim
    } else {
        a
    }
}

pub open spec fn clamp_world(a: int) -> int {
    clamp_int(a, WORLD_LIMIT as int)
}

pub open spec fn coord_in_world(a: int) -> bool {
    -WORLD_LIMIT <= a <= WORLD_LIMIT
}

/// The unique `r` with `r * r <= n < (r + 1) * (r + 1)`.
pub open spec fn int_sqrt(n: nat) -> nat
    decreases n,
{
    if n == 0 {
        0
    } else {
        let r = int_sqrt((n - 1) as nat);
        if (r + 1) * (r + 1) <= n {
            r + 1
        } else {
            r
        }
    }
}

/// Squares of the bound below which `isqrt` works (`2^40` squared).
pub const SQRT_INPUT_LIMIT: u128 = 1_208_925_819_614_629_174_706_176;

impl Vec3 {
    pub open spec fn in_world(self) -> bool {
        coord_in_world(self.x as int) && coord_in_world(self.y as int) && coord_in_world(self.z as int)
    }

    pub open spec fn within(self, lim: int) -> bool {
        -lim <= self.x <= lim && -lim <= self.y <= lim && -lim <= self.z <= lim
    }

    /// Squared Euclidean length.
    pub open spec fn norm_sq(self) -> int {
        self.x * self.x + self.y * self.y + self.z * self.z
    }

    /// Euclidean length, rounded down.
    pub open spec fn norm_spec(self) -> int {
        int_sqrt(self.norm_sq() as nat) as int
    }

    pub open spec fn clamped_sum(self, d: Vec3) -> Vec3 {
        Vec3 {
            x: clamp_world(self.x + d.x) as i64,
            y: clamp_world(self.y + d.y) as i64,
            z: clamp_world(self.z + d.z) as i64,
        }
    }

    pub fn new(x: i64, y: i64, z: i64) -> (r: Vec3)
        ensures
            r == (Vec3 { x, y, z }),
    {
        Vec3 { x, y, z }
    }

    pub fn zero() -> (r: Vec3)
        ensures
            r == (Vec3 { x: 0, y: 0, z: 0 }),
    {
        Vec3 { x: 0, y: 0, z: 0 }
    }

    /// The vector with each coordinate clamped into the world.
    pub fn clamped(self) -> (r: Vec3)
        ensures
            r == (Vec3 {
                x: clamp_world(self.x as int) as i64,
                y: clamp_world(self.y as int) as i64,
                z: clamp_world(self.z as int) as i64,
            }),
            r.in_world(),
    {
        Vec3 { x: clamp_coord(self.x as i128), y: clamp_coord(self.y as i128), z: clamp_coord(self.z as i128) }
    }

    /// `self + d`, each coordinate saturating at the world's bound.
    pub fn add_clamped(self, d: Vec3) -> (r: Vec3)
        ensures
            r == self.clamped_sum(d),
            r.in_world(),
    {
        Vec3 {
            x: clamp_coord(self.x as i128 + d.x as i128),
            y: clamp_coord(self.y as i128 + d.y as i128),
            z: clamp_coord(self.z as i128 + d.z as i128),
        }
    }

    /// The difference `self - o` of two in-world vectors.
    pub fn sub(self, o: Vec3) -> (r: Vec3)
        requires
            self.in_world(),
            o.in_world(),
        ensures
            r.x == self.x - o.x,
            r.y == self.y - o.y,
            r.z == self.z - o.z,
            r.within(2 * WORLD_LIMIT),
    {
        Vec3 { x: self.x - o.x, y: self.y - o.y, z: self.z - o.z }
    }

    /// `-self` for a vector no larger than twice the world.
    pub fn neg(self) -> (r: Vec3)
        requires
            self.within(2 * WORLD_LIMIT),
        ensures
            r.x == -self.x,
            r.y == -self.y,
            r.z == -self.z,
    {
        Vec3 { x: -self.x, y: -self.y, z: -self.z }
    }

    /// Squared length of a vector no larger than twice the world.
    pub fn norm_squared(self) -> (r: u128)
        requires
            self.within(2 * WORLD_LIMIT),
        ensures
            r == self.norm_sq(),
            r < SQRT_INPUT_LIMIT,
    {
        let x = self.x as i128;
        let y = self.y as i128;
        let z = self.z as i128;
        proof {
            lemma_square_bound(x as int, 2 * WORLD_LIMIT);
            lemma_square_bound(y as int, 2 * WORLD_LIMIT);
            lemma_square_bound(z as int, 2 * WORLD_LIMIT);
        }
        (x * x + y * y + z * z) as u128
    }

    /// Length rounded down, of a vector no larger than twice the world.
    pub fn norm(self) -> (r: i64)
        requires
            self.within(2 * WORLD_LIMIT),
        ensures
            r == self.norm_spec(),
            r as int * r as int <= self.norm_sq() < (r + 1) * (r + 1),
            0 <= r < 1_099_511_627_776,
    {
        let s = self.norm_squared();
        let r = isqrt(s);
        r as i64
    }
}

proof fn lemma_square_bound(a: int, b: int)
    requires
        -b <= a <= b,
        b == 2 * WORLD_LIMIT,
    ensures
        0 <= a * a <= 40_000_000_000_000_000_000_000,
{
    assert(b * b == 40_000_000_000_000_000_000_000) by (nonlinear_arith)
        requires
            b == 200_000_000_000int,
    ;
    if a >= 0 {
        assert(a * a <= b * b) by (nonlinear_arith)
            requires
                0 <= a <= b,
        ;
    } else {
        assert(a * a <= b * b) by (nonlinear_arith)
            requires
                0 <= -a <= b,
        ;
    }
    assert(0 <= a * a) by (nonlinear_arith);
}

fn clamp_coord(a: i128) -> (r: i64)
    ensures
        r == clamp_world(a as int),
{
    if a < -(WORLD_LIMIT as i128) {
        -WORLD_LIMIT
    } else if a > WORLD_LIMIT as i128 {
        WORLD_LIMIT
    } else {
        a as i64
    }
}

/// `clamp_int(a, lim)` computed on machine integers.
pub fn clamp_to(a: i128, lim: i64) -> (r: i64)
    requires
        lim >= 0,
    ensures
        r == clamp_int(a as int, lim as int),
{
    if a < -(lim as i128) {
        -lim
    } else if a > lim as i128 {
        lim
    } else {
        a as i64
    }
}

pub proof fn lemma_int_sqrt_bounds(n: nat)
    ensures
        int_sqrt(n) * int_sqrt(n) <= n,
        n < (int_sqrt(n) + 1) * (int_sqrt(n) + 1),
    decreases n,
{
    if n == 0 {
        let r = int_sqrt(n);
        assert(r == 0);
        assert(n < (r + 1) * (r + 1)) by (nonlinear_arith)
            requires
                r == 0,
                n == 0,
        ;
    } else {
        lemma_int_sqrt_bounds((n - 1) as nat);
        let r = int_sqrt((n - 1) as nat);
        if (r + 1) * (r + 1) <= n {
            assert(int_sqrt(n) == r + 1);
            assert(n < (r + 2) * (r + 2)) by (nonlinear_arith)
                requires
                    n - 1 < (r + 1) * (r + 1),
                    r >= 0,
            ;
            assert(n < (int_sqrt(n) + 1) * (int_sqrt(n) + 1));
        } else {
            assert(int_sqrt(n) == r);
            assert(n < (int_sqrt(n) + 1) * (int_sqrt(n) + 1));
        }
    }
}

pub proof fn lemma_square_monotone(a: int, b: int)
    requires
        0 <= a <= b,
    ensures
        a * a <= b * b,
{
    assert(a * a <= b * b) by (nonlinear_arith)
        requires
            0 <= a <= b,
    ;
}

/// Any `r` that brackets `n` between consecutive squares is `int_sqrt(n)`.
pub proof fn lemma_int_sqrt_unique(n: nat, r: nat)
    requires
        r * r <= n,
        n < (r + 1) * (r + 1),
    ensures
        int_sqrt(n) == r,
{
    lemma_int_sqrt_bounds(n);
    let s = int_sqrt(n);
    if s < r {
        lemma_square_monotone(s + 1 as int, r as int);
    } else if r < s {
        lemma_square_monotone(r + 1 as int, s as int);
    }
}

/// Integer square root, rounded down.
pub fn isqrt(n: u128) -> (r: u64)
    requires
        n < SQRT_INPUT_LIMIT,
    ensures
        r == int_sqrt(n as nat),
        r * r <= n < (r + 1) * (r + 1),
        r < 1_099_511_627_776,
{
    let mut lo: u128 = 0;
    let mut hi: u128 = 1_099_511_627_776;
    assert(hi * hi == SQRT_INPUT_LIMIT);
    while lo + 1 < hi
        invariant
            lo < hi <= 1_099_511_627_776,
            lo * lo <= n,
            n < hi * hi,
        decreases hi - lo,
    {
        let mid = lo + (hi - lo) / 2;
        proof {
            lemma_square_monotone(mid as int, 1_099_511_627_776);
        }
        if mid * mid <= n {
            lo = mid;
        } else {
            hi = mid;
        }
    }
    proof {
        lemma_int_sqrt_unique(n as nat, lo as nat);
    }
    lo as u64
}

/// A quotient is no larger in magnitude than `k` when the dividend is at most
/// `b * k` in magnitude.
pub proof fn lemma_div_within(x: int, b: int, k: int)
    requires
        b > 0,
        k >= 0,
        -(b * k) <= x <= b * k,
    ensures
        -k <= x / b <= k,
{
    vstd::arithmetic::div_mod::lemma_fundamental_div_mod(x, b);
    vstd::arithmetic::div_mod::lemma_mod_bound(x, b);
    let q = x / b;
    let r = x % b;
    assert(-k <= q <= k) by (nonlinear_arith)
        requires
            x == b * q + r,
            0 <= r < b,
            b > 0,
            k >= 0,
            -(b * k) <= x <= b * k,
    ;
}

/// A product is bounded by the product of its factors' bounds.
pub proof fn lemma_mul_within(a: int, b: int, ma: int, mb: int)
    requires
        -ma <= a <= ma,
        -mb <= b <= mb,
    ensures
        -(ma * mb) <= a * b <= ma * mb,
{
    assert(-(ma * mb) <= a * b <= ma * mb) by (nonlinear_arith)
        requires
            -ma <= a <= ma,
            -mb <= b <= mb,
    ;
}

/// A coordinate whose square is below `(d + 1)^2` lies in `[-d, d]`.
pub proof fn lemma_coord_below_root(a: int, d: int)
    requires
        d >= 0,
        a * a < (d + 1) * (d + 1),
    ensures
        -d <= a <= d,
{
    if a > d {
        lemma_square_monotone(d + 1, a);
    } else if a < -d {
        lemma_square_monotone(d + 1, -a);
        assert((-a) * (-a) == a * a) by (nonlinear_arith);
    }
}

/// `a / b` rounded toward negative infinity, for a positive divisor.
pub fn floor_div(a: i128, b: i128) -> (r: i128)
    requires
        b > 0,
        a > i128::MIN,
    ensures
        r == a as int / b as int,
{
    if a >= 0 {
        a / b
    } else {
        let q = (-a - 1) / b;
        proof {
            lemma_floor_div_negative(a as int, b as int);
        }
        -q - 1
    }
}

proof fn lemma_floor_div_negative(a: int, b: int)
    requires
        a < 0,
        b > 0,
    ensures
        a / b == -((-a - 1) / b) - 1,
{
    let q = (-a - 1) / b;
    let m = (-a - 1) % b;
    vstd::arithmetic::div_mod::lemma_fundamental_div_mod(-a - 1, b);
    vstd::arithmetic::div_mod::lemma_mod_bound(-a - 1, b);
    let q2 = -q - 1;
    assert(a == b * q2 + (b - 1 - m)) by (nonlinear_arith)
        requires
            -a - 1 == b * q + m,
            q2 == -q - 1,
    ;
    vstd::arithmetic::div_mod::lemma_fundamental_div_mod_converse(a, b, q2, b - 1 - m);
}

} // verus!
