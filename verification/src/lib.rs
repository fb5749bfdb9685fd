//! A voxel water-flow simulation over an interpolated terrain height field.
//!
//! The crate turns a sparse set of control points into a dense height grid
//! (`grid`), converts that grid into a 3D occupancy column grid (`voxel`),
//! advances water particles through the voxel grid tick by tick (`water`),
//! and keeps a flat vertex/index geometry buffer in lock-step with the
//! active particles (`particle_shape`).

pub mod grid;
pub mod parse;
pub mod particle_shape;
pub mod voxel;
pub mod water;
pub mod vertex;
mod rng;

use vstd::prelude::*;

verus! {

/// Fixed-point scale: the coordinate value `1.0` is stored as `SCALE`.
/// Heights range over `[0, SCALE]`, planar coordinates over `[-SCALE, SCALE]`.
pub const SCALE: u32 = 1000;

} // verus!
