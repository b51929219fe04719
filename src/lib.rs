//! A particle physics kernel: Verlet-integrated spheres, box and ball
//! containers, a uniform hash grid for broad-phase collision detection, and
//! distance-constraint groups ("molecules"), advanced in fixed substeps.
//!
//! Coordinates are fixed-point integers: `vector::SCALE` units make one world
//! unit, and time steps are fixed-point seconds on the same scale. The world
//! is a bounded box of half-side `vector::WORLD_LIMIT`; positions saturate at
//! its faces. Lengths are integer square roots rounded down, so every
//! normalised direction is exact up to one unit of rounding per axis.
//!
//! The simulation owns its spheres in one vector and addresses them by
//! index; the grid and the molecules hold indices. Everything runs in order
//! on one thread, so no pairwise resolution is ever skipped for contention.
use vstd::prelude::*;

pub mod vector;
pub mod particle;
pub mod container;
pub mod grid;
pub mod molecule;
pub mod simulation;
pub mod world;
pub mod input;

verus! {

} // verus!
