use vstd::prelude::*;

use std::collections::HashMap;

use crate::particle::Sphere;
use crate::vector::{coord_in_world, floor_div, lemma_div_within, Vec3, WORLD_LIMIT};

verus! {

/// Bound on cell coordinates: with cells at least `MIN_CELL_SIZE` wide,
/// every position in the world lies in a cell within `[-CELL_LIMIT, CELL_LIMIT]`.
pub const CELL_LIMIT: i64 = 1_000_000;

/// Smallest cell side a grid admits: `WORLD_LIMIT / CELL_LIMIT`.
pub const MIN_CELL_SIZE: i64 = 100_000;

/// Bias that makes a cell coordinate near the cell bound non-negative for
/// packing into a key; coordinates in `[-CELL_BIAS, CELL_BIAS)` pack.
pub const CELL_BIAS: i64 = 1_048_576;

/// An integer cell coordinate of the spatial grid.
#[derive(Clone, Copy, Debug, PartialEq, Eq, Hash, Structural)]
pub struct IVec3 {
    pub x: i32,
    pub y: i32,
    pub z: i32,
}

/// The cell coordinate of a position coordinate: `floor(p / cell_size)`.
pub open spec fn cell_coord(p: int, cell_size: int) -> int {
    p / cell_size
}

/// An in-world coordinate falls in a cell within the cell bound.
pub proof fn lemma_cell_in_range(p: int, cell_size: int)
    requires
        coord_in_world(p),
        cell_size >= MIN_CELL_SIZE,
    ensures
        -CELL_LIMIT <= cell_coord(p, cell_size) <= CELL_LIMIT,
{
    assert(cell_size * CELL_LIMIT >= WORLD_LIMIT) by (nonlinear_arith)
        requires
            cell_size >= MIN_CELL_SIZE,
    ;
    lemma_div_within(p, cell_size, CELL_LIMIT as int);
}

pub open spec fn cell_of(p: Vec3, cell_size: int) -> IVec3 {
    IVec3 {
        x: cell_coord(p.x as int, cell_size) as i32,
        y: cell_coord(p.y as int, cell_size) as i32,
        z: cell_coord(p.z as int, cell_size) as i32,
    }
}

pub open spec fn packable(a: int) -> bool {
    -CELL_BIAS <= a < CELL_BIAS
}

pub open spec fn pack_spec(x: int, y: int, z: int) -> u64 {
    (((x + CELL_BIAS) as u64) << 42u64) | (((y + CELL_BIAS) as u64) << 21u64) | ((z + CELL_BIAS) as u64)
}

proof fn lemma_pack_injective(a: u64, b: u64, c: u64, a2: u64, b2: u64, c2: u64)
    requires
        a < 2_097_152,
        b < 2_097_152,
        c < 2_097_152,
        a2 < 2_097_152,
        b2 < 2_097_152,
        c2 < 2_097_152,
        (a << 42u64) | (b << 21u64) | c == (a2 << 42u64) | (b2 << 21u64) | c2,
    ensures
        a == a2,
        b == b2,
        c == c2,
{
    assert(a == a2 && b == b2 && c == c2) by (bit_vector)
        requires
            a < 2_097_152,
            b < 2_097_152,
            c < 2_097_152,
            a2 < 2_097_152,
            b2 < 2_097_152,
            c2 < 2_097_152,
            (a << 42u64) | (b << 21u64) | c == (a2 << 42u64) | (b2 << 21u64) | c2,
    ;
}

/// Two packable cells with one key are one cell.
proof fn lemma_pack_unique(x: int, y: int, z: int, x2: int, y2: int, z2: int)
    requires
        packable(x),
        packable(y),
        packable(z),
        packable(x2),
        packable(y2),
        packable(z2),
        pack_spec(x, y, z) == pack_spec(x2, y2, z2),
    ensures
        x == x2,
        y == y2,
        z == z2,
{
    lemma_pack_injective(
        (x + CELL_BIAS) as u64,
        (y + CELL_BIAS) as u64,
        (z + CELL_BIAS) as u64,
        (x2 + CELL_BIAS) as u64,
        (y2 + CELL_BIAS) as u64,
        (z2 + CELL_BIAS) as u64,
    );
}

fn pack(x: i64, y: i64, z: i64) -> (r: u64)
    requires
        packable(x as int),
        packable(y as int),
        packable(z as int),
    ensures
        r == pack_spec(x as int, y as int, z as int),
{
    (((x + CELL_BIAS) as u64) << 42u64) | (((y + CELL_BIAS) as u64) << 21u64) | ((z + CELL_BIAS) as u64)
}

impl IVec3 {
    pub open spec fn in_range(self) -> bool {
        -CELL_LIMIT <= self.x <= CELL_LIMIT && -CELL_LIMIT <= self.y <= CELL_LIMIT && -CELL_LIMIT
            <= self.z <= CELL_LIMIT
    }

    pub open spec fn key(self) -> u64 {
        pack_spec(self.x as int, self.y as int, self.z as int)
    }

    pub fn new(x: i32, y: i32, z: i32) -> (r: IVec3)
        ensures
            r == (IVec3 { x, y, z }),
    {
        IVec3 { x, y, z }
    }

    /// The cell that holds `position` in a grid of cells of side `cell_size`:
    /// `floor(position / cell_size)` on each axis.
    pub fn from_position(position: Vec3, cell_size: i64) -> (r: IVec3)
        requires
            cell_size >= MIN_CELL_SIZE,
            position.in_world(),
        ensures
            r.x == position.x as int / cell_size as int,
            r.y == position.y as int / cell_size as int,
            r.z == position.z as int / cell_size as int,
            r == cell_of(position, cell_size as int),
            r.in_range(),
    {
        IVec3 {
            x: cell_step(position.x, cell_size),
            y: cell_step(position.y, cell_size),
            z: cell_step(position.z, cell_size),
        }
    }
}

fn cell_step(p: i64, cell_size: i64) -> (r: i32)
    requires
        cell_size >= MIN_CELL_SIZE,
        coord_in_world(p as int),
    ensures
        r == cell_coord(p as int, cell_size as int),
        -CELL_LIMIT <= r <= CELL_LIMIT,
{
    proof {
        lemma_cell_in_range(p as int, cell_size as int);
    }
    floor_div(p as i128, cell_size as i128) as i32
}

/// The spheres (by index) that occupy one cell.
#[derive(Debug)]
pub struct Bucket {
    pub cell: IVec3,
    pub members: Vec<usize>,
}

/// A uniform hash grid: each occupied cell has a bucket of sphere indices.
/// Buckets are kept in the order their cells were first occupied; `index`
/// maps each occupied cell's key to its bucket.
#[derive(Debug)]
pub struct Grid {
    pub cell_size: i64,
    pub buckets: Vec<Bucket>,
    pub index: HashMap<u64, usize>,
}

/// The indices of `spheres` whose centre lies in `cell`, in increasing order.
pub open spec fn cell_members(spheres: Seq<Sphere>, cell_size: int, cell: IVec3) -> Seq<usize>
    decreases spheres.len(),
{
    if spheres.len() == 0 {
        Seq::empty()
    } else {
        let rest = cell_members(spheres.drop_last(), cell_size, cell);
        if cell_of(spheres.last().particle.position, cell_size) == cell {
            rest.push((spheres.len() - 1) as usize)
        } else {
            rest
        }
    }
}

/// The occupied cells of `spheres`, each listed once, in the order in which
/// a sphere first occupies it.
pub open spec fn first_cells(spheres: Seq<Sphere>, cell_size: int) -> Seq<IVec3>
    decreases spheres.len(),
{
    if spheres.len() == 0 {
        Seq::empty()
    } else {
        let rest = first_cells(spheres.drop_last(), cell_size);
        let c = cell_of(spheres.last().particle.position, cell_size);
        if rest.contains(c) {
            rest
        } else {
            rest.push(c)
        }
    }
}

/// The offset of the `k`-th cell of a 3x3x3 block, x slowest, z fastest.
pub open spec fn block_offset(k: int) -> (int, int, int) {
    (k / 9 - 1, (k / 3) % 3 - 1, k % 3 - 1)
}

impl Grid {
    pub open spec fn wf(self) -> bool {
        &&& self.cell_size >= MIN_CELL_SIZE
        &&& forall|i: int| 0 <= i < self.buckets@.len() ==> (#[trigger] self.buckets@[i]).cell.in_range()
        &&& forall|i: int|
            0 <= i < self.buckets@.len() ==> {
                &&& self.index@.contains_key((#[trigger] self.buckets@[i]).cell.key())
                &&& self.index@[self.buckets@[i].cell.key()] == i
            }
        &&& forall|k: u64|
            #[trigger] self.index@.contains_key(k) ==> {
                &&& self.index@[k] < self.buckets@.len()
                &&& self.buckets@[self.index@[k] as int].cell.key() == k
            }
    }

    /// The cells of the buckets, in bucket order.
    pub open spec fn cells(self) -> Seq<IVec3> {
        Seq::new(self.buckets@.len(), |i: int| self.buckets@[i].cell)
    }

    /// Whether some bucket is the bucket of the cell `(x, y, z)`.
    pub open spec fn occupied(self, x: int, y: int, z: int) -> bool {
        exists|i: int|
            0 <= i < self.buckets@.len() && #[trigger] self.buckets@[i].cell == (IVec3 {
                x: x as i32,
                y: y as i32,
                z: z as i32,
            }) && -CELL_LIMIT <= x <= CELL_LIMIT && -CELL_LIMIT <= y <= CELL_LIMIT && -CELL_LIMIT
                <= z <= CELL_LIMIT
    }

    /// The sphere indices bucketed in cell `(x, y, z)`; empty if none.
    pub open spec fn bucket_at(self, x: int, y: int, z: int) -> Seq<usize> {
        if self.occupied(x, y, z) {
            let i = choose|i: int|
                0 <= i < self.buckets@.len() && #[trigger] self.buckets@[i].cell == (IVec3 {
                    x: x as i32,
                    y: y as i32,
                    z: z as i32,
                });
            self.buckets@[i].members@
        } else {
            Seq::empty()
        }
    }

    pub open spec fn bucket(self, c: IVec3) -> Seq<usize> {
        self.bucket_at(c.x as int, c.y as int, c.z as int)
    }

    /// The buckets of the first `k` cells of the block around `c`, concatenated.
    pub open spec fn block_prefix(self, c: IVec3, k: int) -> Seq<usize>
        decreases k,
    {
        if k <= 0 {
            Seq::empty()
        } else {
            let o = block_offset(k - 1);
            self.block_prefix(c, k - 1) + self.bucket_at(c.x + o.0, c.y + o.1, c.z + o.2)
        }
    }

    /// All spheres bucketed in the 3x3x3 block of cells centred on `c`.
    pub open spec fn neighborhood(self, c: IVec3) -> Seq<usize> {
        self.block_prefix(c, 27)
    }

    /// An empty grid with cells of side `cell_size`.
    pub fn new(cell_size: i64) -> (r: Grid)
        requires
            cell_size >= MIN_CELL_SIZE,
        ensures
            r.wf(),
            r.cell_size == cell_size,
            r.buckets@.len() == 0,
    {
        Grid { cell_size, buckets: Vec::new(), index: HashMap::new() }
    }

    /// The cell that holds `position`.
    pub fn get_cell(&self, position: Vec3) -> (r: IVec3)
        requires
            self.wf(),
            position.in_world(),
        ensures
            r == cell_of(position, self.cell_size as int),
            r.in_range(),
    {
        IVec3::from_position(position, self.cell_size)
    }

    proof fn lemma_bucket_is(self, i: int)
        requires
            self.wf(),
            0 <= i < self.buckets@.len(),
        ensures
            self.bucket(self.buckets@[i].cell) == self.buckets@[i].members@,
    {
        let c = self.buckets@[i].cell;
        assert(self.occupied(c.x as int, c.y as int, c.z as int));
        let j = choose|j: int|
            0 <= j < self.buckets@.len() && #[trigger] self.buckets@[j].cell == (IVec3 {
                x: c.x as i32,
                y: c.y as i32,
                z: c.z as i32,
            });
        assert(self.buckets@[j].cell == c);
        assert(self.index@[c.key()] == i);
        assert(self.index@[self.buckets@[j].cell.key()] == j);
    }

    /// Appends sphere `index` to the bucket of the cell that holds `position`.
    pub fn insert(&mut self, index: usize, position: Vec3)
        requires
            old(self).wf(),
            position.in_world(),
        ensures
            final(self).wf(),
            final(self).cell_size == old(self).cell_size,
            final(self).cells() == if old(self).cells().contains(cell_of(position, old(self).cell_size as int)) {
                old(self).cells()
            } else {
                old(self).cells().push(cell_of(position, old(self).cell_size as int))
            },
            forall|c: IVec3|
                #[trigger] final(self).bucket(c) == if c == cell_of(position, old(self).cell_size as int) {
                    old(self).bucket(c).push(index)
                } else {
                    old(self).bucket(c)
                },
    {
        let cell = self.get_cell(position);
        let key = pack(cell.x as i64, cell.y as i64, cell.z as i64);
        let ghost old_grid = *self;
        match self.index.get(&key) {
            Some(i) => {
                let i = *i;
                proof {
                    old_grid.lemma_bucket_is(i as int);
                    let bc = old_grid.buckets@[i as int].cell;
                    lemma_pack_unique(bc.x as int, bc.y as int, bc.z as int, cell.x as int, cell.y as int, cell.z as int);
                }
                self.buckets[i].members.push(index);
                proof {
                    assert(old_grid.cells()[i as int] == cell);
                    assert(self.cells() =~= old_grid.cells());
                    self.lemma_bucket_is(i as int);
                    assert forall|c: IVec3| #[trigger] self.bucket(c) == if c == cell {
                        old_grid.bucket(c).push(index)
                    } else {
                        old_grid.bucket(c)
                    } by {
                        if c != cell {
                            self.lemma_other_bucket_same(old_grid, c, i as int);
                        }
                    }
                }
            },
            None => {
                let n = self.buckets.len();
                let mut members = Vec::new();
                members.push(index);
                self.buckets.push(Bucket { cell, members });
                self.index.insert(key, n);
                proof {
                    assert(self.cells() =~= old_grid.cells().push(cell));
                    if old_grid.cells().contains(cell) {
                        let j = choose|j: int| 0 <= j < old_grid.cells().len() && old_grid.cells()[j] == cell;
                        assert(old_grid.index@.contains_key(old_grid.buckets@[j].cell.key()));
                    }
                    self.lemma_wf_after_new_bucket(old_grid, cell, n);
                    self.lemma_bucket_is(n as int);
                    assert forall|c: IVec3| #[trigger] self.bucket(c) == if c == cell {
                        old_grid.bucket(c).push(index)
                    } else {
                        old_grid.bucket(c)
                    } by {
                        self.lemma_new_bucket_view(old_grid, c, cell);
                        if c == cell {
                            assert(self.bucket(c) =~= old_grid.bucket(c).push(index));
                        }
                    }
                }
            },
        }
    }

    proof fn lemma_other_bucket_same(self, old_grid: Grid, c: IVec3, i: int)
        requires
            old_grid.wf(),
            self.wf(),
            0 <= i < old_grid.buckets@.len(),
            self.buckets@.len() == old_grid.buckets@.len(),
            forall|j: int|
                0 <= j < self.buckets@.len() ==> (#[trigger] self.buckets@[j]).cell
                    == old_grid.buckets@[j].cell,
            forall|j: int|
                0 <= j < self.buckets@.len() && j != i ==> (#[trigger] self.buckets@[j]).members@
                    == old_grid.buckets@[j].members@,
            c != old_grid.buckets@[i].cell,
        ensures
            self.bucket(c) == old_grid.bucket(c),
    {
        let (x, y, z) = (c.x as int, c.y as int, c.z as int);
        if old_grid.occupied(x, y, z) {
            let j = choose|j: int|
                0 <= j < old_grid.buckets@.len() && #[trigger] old_grid.buckets@[j].cell == (IVec3 {
                    x: x as i32,
                    y: y as i32,
                    z: z as i32,
                });
            assert(self.buckets@[j].cell == old_grid.buckets@[j].cell);
            old_grid.lemma_bucket_is(j);
            self.lemma_bucket_is(j);
        } else {
            if self.occupied(x, y, z) {
                let j = choose|j: int|
                    0 <= j < self.buckets@.len() && #[trigger] self.buckets@[j].cell == (IVec3 {
                        x: x as i32,
                        y: y as i32,
                        z: z as i32,
                    });
                assert(old_grid.buckets@[j].cell == self.buckets@[j].cell);
            }
        }
    }

    proof fn lemma_wf_after_new_bucket(self, old_grid: Grid, cell: IVec3, n: usize)
        requires
            n == old_grid.buckets@.len(),
            old_grid.wf(),
            cell.in_range(),
            !old_grid.index@.contains_key(cell.key()),
            self.cell_size == old_grid.cell_size,
            self.buckets@.len() == old_grid.buckets@.len() + 1,
            forall|j: int|
                0 <= j < old_grid.buckets@.len() ==> (#[trigger] self.buckets@[j]) == old_grid.buckets@[j],
            self.buckets@[old_grid.buckets@.len() as int].cell == cell,
            self.index@ == old_grid.index@.insert(cell.key(), n),
        ensures
            self.wf(),
    {
        assert forall|i: int| 0 <= i < self.buckets@.len() implies {
            &&& self.index@.contains_key((#[trigger] self.buckets@[i]).cell.key())
            &&& self.index@[self.buckets@[i].cell.key()] == i
        } by {
            if i < old_grid.buckets@.len() {
                assert(self.buckets@[i] == old_grid.buckets@[i]);
                assert(old_grid.index@.contains_key(old_grid.buckets@[i].cell.key()));
                assert(old_grid.buckets@[i].cell.key() != cell.key());
            } else {
                assert(i == old_grid.buckets@.len());
                assert(self.buckets@[i].cell == cell);
            }
        }
        assert forall|k: u64| #[trigger] self.index@.contains_key(k) implies {
            &&& self.index@[k] < self.buckets@.len()
            &&& self.buckets@[self.index@[k] as int].cell.key() == k
        } by {
            if k != cell.key() {
                assert(old_grid.index@.contains_key(k));
                let j = old_grid.index@[k] as int;
                assert(self.buckets@[j] == old_grid.buckets@[j]);
            }
        }
        assert forall|i: int| 0 <= i < self.buckets@.len() implies (
        #[trigger] self.buckets@[i]).cell.in_range() by {
            if i < old_grid.buckets@.len() {
                assert(self.buckets@[i] == old_grid.buckets@[i]);
            }
        }
    }

    proof fn lemma_new_bucket_view(self, old_grid: Grid, c: IVec3, cell: IVec3)
        requires
            old_grid.wf(),
            self.wf(),
            !old_grid.index@.contains_key(cell.key()),
            self.buckets@.len() == old_grid.buckets@.len() + 1,
            forall|j: int|
                0 <= j < old_grid.buckets@.len() ==> (#[trigger] self.buckets@[j]) == old_grid.buckets@[j],
            self.buckets@[old_grid.buckets@.len() as int].cell == cell,
        ensures
            c == cell ==> old_grid.bucket(c) == Seq::<usize>::empty(),
            c != cell ==> self.bucket(c) == old_grid.bucket(c),
    {
        let n = old_grid.buckets@.len() as int;
        let (x, y, z) = (c.x as int, c.y as int, c.z as int);
        if c == cell {
            if old_grid.occupied(x, y, z) {
                let j = choose|j: int|
                    0 <= j < old_grid.buckets@.len() && #[trigger] old_grid.buckets@[j].cell == (IVec3 {
                        x: x as i32,
                        y: y as i32,
                        z: z as i32,
                    });
                assert(old_grid.buckets@[j].cell == c);
                assert(old_grid.index@.contains_key(old_grid.buckets@[j].cell.key()));
            }
        } else {
            if old_grid.occupied(x, y, z) {
                let j = choose|j: int|
                    0 <= j < old_grid.buckets@.len() && #[trigger] old_grid.buckets@[j].cell == (IVec3 {
                        x: x as i32,
                        y: y as i32,
                        z: z as i32,
                    });
                assert(self.buckets@[j] == old_grid.buckets@[j]);
                old_grid.lemma_bucket_is(j);
                self.lemma_bucket_is(j);
            } else if self.occupied(x, y, z) {
                let j = choose|j: int|
                    0 <= j < self.buckets@.len() && #[trigger] self.buckets@[j].cell == (IVec3 {
                        x: x as i32,
                        y: y as i32,
                        z: z as i32,
                    });
                if j < n {
                    assert(old_grid.buckets@[j] == self.buckets@[j]);
                }
            }
        }
    }

    /// Drops every bucket.
    pub fn clear(&mut self)
        requires
            old(self).wf(),
        ensures
            final(self).wf(),
            final(self).cell_size == old(self).cell_size,
            final(self).buckets@.len() == 0,
            forall|c: IVec3| #[trigger] final(self).bucket(c) == Seq::<usize>::empty(),
    {
        self.buckets.clear();
        self.index.clear();
    }
}


impl Grid {
    /// The spheres bucketed in the 3x3x3 block of cells centred on `cell`, the
    /// cells taken with x slowest and z fastest.
    pub fn get_neighbors_in_cell(&self, cell: IVec3) -> (r: Vec<usize>)
        requires
            self.wf(),
        ensures
            r@ == self.neighborhood(cell),
    {
        let mut out: Vec<usize> = Vec::new();
        let mut k: usize = 0;
        while k < 27
            invariant
                self.wf(),
                k <= 27,
                out@ == self.block_prefix(cell, k as int),
            decreases 27 - k,
        {
            let x = cell.x as i64 + (k / 9) as i64 - 1;
            let y = cell.y as i64 + ((k / 3) % 3) as i64 - 1;
            let z = cell.z as i64 + (k % 3) as i64 - 1;
            let ghost before = out@;
            if -CELL_BIAS <= x && x < CELL_BIAS && -CELL_BIAS <= y && y < CELL_BIAS && -CELL_BIAS <= z
                && z < CELL_BIAS {
                let key = pack(x, y, z);
                match self.index.get(&key) {
                    Some(i) => {
                        let i = *i;
                        proof {
                            let bc = self.buckets@[i as int].cell;
                            lemma_pack_unique(bc.x as int, bc.y as int, bc.z as int, x as int, y as int, z as int);
                            self.lemma_bucket_is(i as int);
                        }
                        let members = &self.buckets[i].members;
                        let mut j: usize = 0;
                        while j < members.len()
                            invariant
                                j <= members@.len(),
                                out@ == before + members@.subrange(0, j as int),
                            decreases members@.len() - j,
                        {
                            out.push(members[j]);
                            j += 1;
                            proof {
                                assert(members@.subrange(0, j as int) =~= members@.subrange(0, j - 1).push(members@[j - 1]));
                            }
                        }
                        proof {
                            assert(members@.subrange(0, members@.len() as int) =~= members@);
                        }
                    },
                    None => {
                        proof {
                            self.lemma_unoccupied(x as int, y as int, z as int);
                        }
                    },
                }
            } else {
                proof {
                    if self.occupied(x as int, y as int, z as int) {
                        let j = choose|j: int|
                            0 <= j < self.buckets@.len() && #[trigger] self.buckets@[j].cell == (IVec3 {
                                x: x as i32,
                                y: y as i32,
                                z: z as i32,
                            });
                    }
                }
            }
            proof {
                assert(out@ =~= before + self.bucket_at(x as int, y as int, z as int));
            }
            k += 1;
        }
        out
    }

    proof fn lemma_unoccupied(self, x: int, y: int, z: int)
        requires
            self.wf(),
            packable(x),
            packable(y),
            packable(z),
            !self.index@.contains_key(pack_spec(x, y, z)),
        ensures
            !self.occupied(x, y, z),
    {
        if self.occupied(x, y, z) {
            let j = choose|j: int|
                0 <= j < self.buckets@.len() && #[trigger] self.buckets@[j].cell == (IVec3 {
                    x: x as i32,
                    y: y as i32,
                    z: z as i32,
                });
            assert(self.index@.contains_key(self.buckets@[j].cell.key()));
        }
    }

    /// Clears the grid and inserts every sphere, by index, in order.
    pub fn rebuild(&mut self, spheres: &Vec<Sphere>)
        requires
            old(self).wf(),
            forall|i: int| 0 <= i < spheres@.len() ==> (#[trigger] spheres@[i]).particle.position.in_world(),
        ensures
            final(self).wf(),
            final(self).cell_size == old(self).cell_size,
            forall|c: IVec3|
                #[trigger] final(self).bucket(c) == cell_members(spheres@, old(self).cell_size as int, c),
            final(self).cells() == first_cells(spheres@, old(self).cell_size as int),
    {
        self.clear();
        proof {
            assert(self.cells() =~= first_cells(spheres@.subrange(0, 0), self.cell_size as int));
        }
        let mut i: usize = 0;
        while i < spheres.len()
            invariant
                self.wf(),
                self.cell_size == old(self).cell_size,
                i <= spheres@.len(),
                forall|j: int| 0 <= j < spheres@.len() ==> (#[trigger] spheres@[j]).particle.position.in_world(),
                forall|c: IVec3|
                    #[trigger] self.bucket(c) == cell_members(spheres@.subrange(0, i as int), self.cell_size as int, c),
                self.cells() == first_cells(spheres@.subrange(0, i as int), self.cell_size as int),
            decreases spheres@.len() - i,
        {
            let ghost prev = *self;
            self.insert(i, spheres[i].particle.position);
            i += 1;
            proof {
                let sub = spheres@.subrange(0, i as int);
                assert(sub.drop_last() =~= spheres@.subrange(0, i - 1));
                assert forall|c: IVec3|
                    #[trigger] self.bucket(c) == cell_members(sub, self.cell_size as int, c) by {
                    assert(prev.bucket(c) == cell_members(spheres@.subrange(0, i - 1), self.cell_size as int, c));
                }
            }
        }
        proof {
            assert(spheres@.subrange(0, spheres@.len() as int) =~= spheres@);
        }
    }
}

/// Index `i` is among the members of the cell that holds sphere `i`.
pub proof fn lemma_member_of_own_cell(spheres: Seq<Sphere>, cell_size: int, i: int)
    requires
        0 <= i < spheres.len(),
    ensures
        cell_members(spheres, cell_size, cell_of(spheres[i].particle.position, cell_size)).contains(
            i as usize,
        ),
    decreases spheres.len(),
{
    let c = cell_of(spheres[i].particle.position, cell_size);
    let rest = cell_members(spheres.drop_last(), cell_size, c);
    if i == spheres.len() - 1 {
        assert(cell_members(spheres, cell_size, c) == rest.push(i as usize));
        assert(rest.push(i as usize)[rest.len() as int] == i as usize);
    } else {
        assert(spheres.drop_last()[i] == spheres[i]);
        lemma_member_of_own_cell(spheres.drop_last(), cell_size, i);
        let j = choose|j: int| 0 <= j < rest.len() && rest[j] == i as usize;
        if cell_of(spheres.last().particle.position, cell_size) == c {
            assert(rest.push((spheres.len() - 1) as usize)[j] == i as usize);
        }
    }
}

proof fn lemma_block_prefix_contains(g: Grid, c: IVec3, k: int, n: int, s: usize)
    requires
        0 <= k < n,
        g.bucket_at(c.x + block_offset(k).0, c.y + block_offset(k).1, c.z + block_offset(k).2).contains(s),
    ensures
        g.block_prefix(c, n).contains(s),
    decreases n,
{
    let o = block_offset(n - 1);
    let b = g.bucket_at(c.x + o.0, c.y + o.1, c.z + o.2);
    let pre = g.block_prefix(c, n - 1);
    assert(g.block_prefix(c, n) == pre + b);
    if k == n - 1 {
        let j = choose|j: int| 0 <= j < b.len() && b[j] == s;
        assert((pre + b)[pre.len() + j] == s);
    } else {
        lemma_block_prefix_contains(g, c, k, n - 1, s);
        let j = choose|j: int| 0 <= j < pre.len() && pre[j] == s;
        assert((pre + b)[j] == s);
    }
}

proof fn lemma_cell_near(p: int, cs: int, c: int)
    requires
        cs > 0,
        (c - 1) * cs <= p < (c + 2) * cs,
    ensures
        c - 1 <= cell_coord(p, cs) <= c + 1,
{
    vstd::arithmetic::div_mod::lemma_fundamental_div_mod(p, cs);
    vstd::arithmetic::div_mod::lemma_mod_bound(p, cs);
    let q = p / cs;
    let r = p % cs;
    assert(c - 1 <= q <= c + 1) by (nonlinear_arith)
        requires
            p == cs * q + r,
            0 <= r < cs,
            (c - 1) * cs <= p < (c + 2) * cs,
            cs > 0,
    ;
}

/// The neighbour query for a cell returns every sphere whose centre lies
/// within one cell side of that cell's volume (on each axis), in a grid
/// rebuilt from the spheres.
pub proof fn lemma_neighborhood_covers(g: Grid, spheres: Seq<Sphere>, c: IVec3, i: int)
    requires
        g.wf(),
        forall|d: IVec3| #[trigger] g.bucket(d) == cell_members(spheres, g.cell_size as int, d),
        0 <= i < spheres.len(),
        spheres[i].particle.position.in_world(),
        (c.x - 1) * g.cell_size <= spheres[i].particle.position.x < (c.x + 2) * g.cell_size,
        (c.y - 1) * g.cell_size <= spheres[i].particle.position.y < (c.y + 2) * g.cell_size,
        (c.z - 1) * g.cell_size <= spheres[i].particle.position.z < (c.z + 2) * g.cell_size,
    ensures
        g.neighborhood(c).contains(i as usize),
{
    let cs = g.cell_size as int;
    let p = spheres[i].particle.position;
    let own = cell_of(p, cs);
    lemma_cell_near(p.x as int, cs, c.x as int);
    lemma_cell_near(p.y as int, cs, c.y as int);
    lemma_cell_near(p.z as int, cs, c.z as int);
    lemma_cell_in_range(p.x as int, cs);
    lemma_cell_in_range(p.y as int, cs);
    lemma_cell_in_range(p.z as int, cs);
    lemma_member_of_own_cell(spheres, cs, i);
    let ox = own.x - c.x;
    let oy = own.y - c.y;
    let oz = own.z - c.z;
    let k = (ox + 1) * 9 + (oy + 1) * 3 + (oz + 1);
    assert(block_offset(k) == (ox, oy, oz));
    assert(g.bucket(own) == g.bucket_at(c.x + ox, c.y + oy, c.z + oz));
    lemma_block_prefix_contains(g, c, k, 27, i as usize);
}

/// Two grids with one cell size rebuilt from the same spheres hold the same
/// buckets, whatever they held before.
pub proof fn lemma_rebuild_deterministic(g1: Grid, g2: Grid, spheres: Seq<Sphere>)
    requires
        g1.cell_size == g2.cell_size,
        forall|d: IVec3| #[trigger] g1.bucket(d) == cell_members(spheres, g1.cell_size as int, d),
        forall|d: IVec3| #[trigger] g2.bucket(d) == cell_members(spheres, g2.cell_size as int, d),
    ensures
        forall|d: IVec3| #[trigger] g1.bucket(d) == g2.bucket(d),
{
    assert forall|d: IVec3| #[trigger] g1.bucket(d) == g2.bucket(d) by {
        assert(g1.bucket(d) == cell_members(spheres, g1.cell_size as int, d));
        assert(g2.bucket(d) == cell_members(spheres, g2.cell_size as int, d));
    }
}

/// The members of cell `(x, y, z)` among `spheres`; empty outside the cell bound.
pub open spec fn members_at(spheres: Seq<Sphere>, cell_size: int, x: int, y: int, z: int) -> Seq<usize> {
    if -CELL_LIMIT <= x <= CELL_LIMIT && -CELL_LIMIT <= y <= CELL_LIMIT && -CELL_LIMIT <= z <= CELL_LIMIT {
        cell_members(spheres, cell_size, IVec3 { x: x as i32, y: y as i32, z: z as i32 })
    } else {
        Seq::empty()
    }
}

/// `Grid::block_prefix` for a grid built from `spheres`.
pub open spec fn block_members(spheres: Seq<Sphere>, cell_size: int, c: IVec3, k: int) -> Seq<usize>
    decreases k,
{
    if k <= 0 {
        Seq::empty()
    } else {
        let o = block_offset(k - 1);
        block_members(spheres, cell_size, c, k - 1) + members_at(
            spheres,
            cell_size,
            c.x + o.0,
            c.y + o.1,
            c.z + o.2,
        )
    }
}

/// The members of the 3x3x3 block around `c` in a grid built from `spheres`.
pub open spec fn neighborhood_of(spheres: Seq<Sphere>, cell_size: int, c: IVec3) -> Seq<usize> {
    block_members(spheres, cell_size, c, 27)
}

/// In a grid rebuilt from `spheres`, each neighbourhood is the one the
/// spheres alone determine.
pub proof fn lemma_neighborhood_of_rebuilt(g: Grid, spheres: Seq<Sphere>, c: IVec3, k: int)
    requires
        g.wf(),
        forall|d: IVec3| #[trigger] g.bucket(d) == cell_members(spheres, g.cell_size as int, d),
    ensures
        g.block_prefix(c, k) == block_members(spheres, g.cell_size as int, c, k),
    decreases k,
{
    if k > 0 {
        lemma_neighborhood_of_rebuilt(g, spheres, c, k - 1);
        let o = block_offset(k - 1);
        let (x, y, z) = (c.x + o.0, c.y + o.1, c.z + o.2);
        if -CELL_LIMIT <= x <= CELL_LIMIT && -CELL_LIMIT <= y <= CELL_LIMIT && -CELL_LIMIT <= z <= CELL_LIMIT {
            let d = IVec3 { x: x as i32, y: y as i32, z: z as i32 };
            assert(g.bucket(d) == g.bucket_at(x, y, z));
        }
    }
}

/// A bucket's members are those of its cell in the spheres the grid was
/// rebuilt from.
pub proof fn lemma_bucket_members_rebuilt(g: Grid, spheres: Seq<Sphere>, i: int)
    requires
        g.wf(),
        forall|d: IVec3| #[trigger] g.bucket(d) == cell_members(spheres, g.cell_size as int, d),
        0 <= i < g.buckets@.len(),
    ensures
        g.buckets@[i].members@ == cell_members(spheres, g.cell_size as int, g.buckets@[i].cell),
{
    g.lemma_bucket_is(i);
    assert(g.bucket(g.buckets@[i].cell) == cell_members(spheres, g.cell_size as int, g.buckets@[i].cell));
}

} // verus!
