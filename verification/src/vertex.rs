//! The static vertex lattice of the water volume.
//!
//! One position per lattice point of a `w × w × h` box, in row-major
//! `(z, x, y)` order, in fixed-point milli-units: planar coordinates run
//! from `-SCALE` to `SCALE`, heights from `0` to `SCALE`.

use vstd::prelude::*;
use vstd::arithmetic::div_mod::lemma_fundamental_div_mod_converse;
use crate::SCALE;
use crate::particle_shape::spec_corner;

verus! {

/// One lattice point position in fixed-point milli-units.
#[derive(Copy, Clone, PartialEq, Eq, Structural, Debug)]
pub struct Vertex {
    pub x: i32,
    pub y: i32,
    pub z: i32,
}

/// Position of lattice point `(x, y, z)`: the planar axes run from
/// `-SCALE` to `SCALE` in `w - 1` steps, the height axis from `0` to
/// `SCALE` in `h - 1` steps.
pub open spec fn spec_vertex(x: int, y: int, z: int, w: int, h: int) -> Vertex {
    Vertex {
        x: (-(SCALE as int) + 2 * SCALE * x / (w - 1)) as i32,
        y: (SCALE * y / (h - 1)) as i32,
        z: (-(SCALE as int) + 2 * SCALE * z / (w - 1)) as i32,
    }
}

/// The vertex stored at flat index `n` of the lattice buffer.
pub open spec fn spec_vertex_at(n: int, w: int, h: int) -> Vertex {
    let z = n / (w * h);
    let r = n % (w * h);
    spec_vertex(r / h, r % h, z, w, h)
}

/// The flat index of lattice point `(x, y, z)` decodes back to it.
pub proof fn lemma_corner_decode(x: int, y: int, z: int, w: int, h: int)
    requires
        0 <= x < w,
        0 <= y < h,
        0 <= z < w,
        1 <= h,
    ensures
        spec_vertex_at(spec_corner(x, y, z, w, h), w, h) == spec_vertex(x, y, z, w, h),
{
    let n = spec_corner(x, y, z, w, h);
    assert(x * h + y < w * h) by (nonlinear_arith)
        requires
            0 <= x < w,
            0 <= y < h,
    ;
    assert(0 <= x * h + y) by (nonlinear_arith)
        requires
            0 <= x,
            0 <= y,
            1 <= h,
    ;
    assert(z * w * h + x * h + y == z * (w * h) + (x * h + y)) by (nonlinear_arith);
    lemma_fundamental_div_mod_converse(n, w * h, z, x * h + y);
    assert(n / (w * h) == z);
    assert(n % (w * h) == x * h + y);
    lemma_fundamental_div_mod_converse(x * h + y, h, x, y);
}

/// Build the vertex lattice of a `w × w × h` box in `(z, x, y)` order.
pub fn generate_vertex_grid(w: usize, h: usize) -> (r: Vec<Vertex>)
    requires
        2 <= w <= 2001,
        2 <= h <= 65536,
        w * w * h <= u32::MAX,
    ensures
        r@.len() == w * w * h,
        forall|n: int| 0 <= n < r@.len() ==> #[trigger] r@[n] == spec_vertex_at(n, w as int, h as int),
{
    let mut vertices: Vec<Vertex> = Vec::new();
    let mut z: usize = 0;
    while z < w
        invariant
            2 <= w <= 2001,
            2 <= h <= 65536,
            w * w * h <= u32::MAX,
            z <= w,
            vertices@.len() == z * w * h,
            forall|n: int|
                0 <= n < vertices@.len() ==> #[trigger] vertices@[n] == spec_vertex_at(
                    n,
                    w as int,
                    h as int,
                ),
        decreases w - z,
    {
        proof {
            assert(z * w * h + w * h <= w * w * h) by (nonlinear_arith)
                requires
                    z < w,
                    1 <= w,
                    1 <= h,
            ;
        }
        let mut x: usize = 0;
        while x < w
            invariant
                2 <= w <= 2001,
                2 <= h <= 65536,
                w * w * h <= u32::MAX,
                z < w,
                x <= w,
                vertices@.len() == z * w * h + x * h,
                forall|n: int|
                    0 <= n < vertices@.len() ==> #[trigger] vertices@[n] == spec_vertex_at(
                        n,
                        w as int,
                        h as int,
                    ),
            decreases w - x,
        {
            proof {
                assert(z * w * h + x * h + h <= w * w * h) by (nonlinear_arith)
                    requires
                        z < w,
                        x < w,
                        1 <= w,
                        1 <= h,
                ;
            }
            let mut y: usize = 0;
            while y < h
                invariant
                    2 <= w <= 2001,
                    2 <= h <= 65536,
                    w * w * h <= u32::MAX,
                    z < w,
                    x < w,
                    y <= h,
                    z * w * h + x * h + h <= w * w * h,
                    vertices@.len() == z * w * h + x * h + y,
                    forall|n: int|
                        0 <= n < vertices@.len() ==> #[trigger] vertices@[n] == spec_vertex_at(
                            n,
                            w as int,
                            h as int,
                        ),
                decreases h - y,
            {
                proof {
                    assert(2 * SCALE * (x as int) / (w as int - 1) <= 2 * SCALE) by (nonlinear_arith)
                        requires
                            0 <= x as int <= w as int - 1,
                            1 <= w as int - 1,
                    ;
                    assert(0 <= 2 * SCALE * (x as int) / (w as int - 1)) by (nonlinear_arith)
                        requires
                            0 <= x as int,
                            1 <= w as int - 1,
                    ;
                    assert(2 * SCALE * (z as int) / (w as int - 1) <= 2 * SCALE) by (nonlinear_arith)
                        requires
                            0 <= z as int <= w as int - 1,
                            1 <= w as int - 1,
                    ;
                    assert(0 <= 2 * SCALE * (z as int) / (w as int - 1)) by (nonlinear_arith)
                        requires
                            0 <= z as int,
                            1 <= w as int - 1,
                    ;
                    assert(SCALE * (y as int) / (h as int - 1) <= SCALE) by (nonlinear_arith)
                        requires
                            0 <= y as int <= h as int - 1,
                            1 <= h as int - 1,
                    ;
                    assert(0 <= SCALE * (y as int) / (h as int - 1)) by (nonlinear_arith)
                        requires
                            0 <= y as int,
                            1 <= h as int - 1,
                    ;
                    lemma_corner_decode(x as int, y as int, z as int, w as int, h as int);
                }
                let vx: i64 = -(SCALE as i64) + 2 * (SCALE as i64) * (x as i64) / (w as i64 - 1);
                let vy: i64 = (SCALE as i64) * (y as i64) / (h as i64 - 1);
                let vz: i64 = -(SCALE as i64) + 2 * (SCALE as i64) * (z as i64) / (w as i64 - 1);
                let v = Vertex { x: vx as i32, y: vy as i32, z: vz as i32 };
                proof {
                    assert(v == spec_vertex(x as int, y as int, z as int, w as int, h as int));
                }
                vertices.push(v);
                y = y + 1;
            }
            proof {
                assert((x as int + 1) * h == x as int * h + h) by (nonlinear_arith);
            }
            x = x + 1;
        }
        proof {
            assert((z as int + 1) * w * h == z as int * w * h + w * h) by (nonlinear_arith);
            assert((z as int + 1) * w * h <= w as int * w * h) by (nonlinear_arith)
                requires
                    z as int + 1 <= w,
                    1 <= w,
                    1 <= h,
            ;
        }
        z = z + 1;
    }
    proof {
        assert(w * w * h == (w as int) * w * h) by (nonlinear_arith);
    }
    vertices
}

} // verus!
