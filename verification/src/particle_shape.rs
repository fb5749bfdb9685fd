//! Renderable particle quads: two triangles over four lattice vertex indices.
//!
//! Each active water particle at grid cell `(x, y, z)` is drawn as a quad
//! whose corner indices come from one canonical formula; when a particle
//! moves one cell, the quad is translated by a fixed per-direction delta
//! rather than recomputed.

use vstd::prelude::*;

verus! {

/// Flat lattice index of the corner vertex belonging to grid cell
/// `(x, y, z)` in a lattice of `w × w` columns, each `h` points tall.
pub open spec fn spec_corner(x: int, y: int, z: int, w: int, h: int) -> int {
    z * w * h + x * h + y
}

/// Three vertex indices making up one triangle of a particle quad.
#[derive(Copy, Clone, PartialEq, Eq, Structural, Debug)]
pub struct TriangleIdx {
    pub i0: u32,
    pub i1: u32,
    pub i2: u32,
}

/// The renderable quad (two triangles) of one active water particle.
#[derive(Copy, Clone, PartialEq, Eq, Structural, Debug)]
pub struct ParticleShape {
    pub t0: TriangleIdx,
    pub t1: TriangleIdx,
}

/// The quad `s` is the canonical one for the particle at cell `(x, y, z)`:
/// corner `p0` together with its lattice neighbours one column east
/// (`p0 + h`), one row south (`p0 + h*w`) and south-east (`p0 + h*(w+1)`).
pub open spec fn shape_matches(s: ParticleShape, x: int, y: int, z: int, w: int, h: int) -> bool {
    let p0 = spec_corner(x, y, z, w, h);
    &&& s.t0.i0 == p0
    &&& s.t0.i1 == p0 + h
    &&& s.t0.i2 == p0 + h * (w + 1)
    &&& s.t1.i0 == p0
    &&& s.t1.i1 == p0 + h * w
    &&& s.t1.i2 == p0 + h * (w + 1)
}

/// All six indices of `post` sit `d` above the matching index of `pre`.
pub open spec fn shape_shifted(post: ParticleShape, pre: ParticleShape, d: int) -> bool {
    &&& post.t0.i0 == pre.t0.i0 + d
    &&& post.t0.i1 == pre.t0.i1 + d
    &&& post.t0.i2 == pre.t0.i2 + d
    &&& post.t1.i0 == pre.t1.i0 + d
    &&& post.t1.i1 == pre.t1.i1 + d
    &&& post.t1.i2 == pre.t1.i2 + d
}

/// Every index of `s` is at least `b`.
pub open spec fn shape_all_ge(s: ParticleShape, b: int) -> bool {
    &&& s.t0.i0 >= b
    &&& s.t0.i1 >= b
    &&& s.t0.i2 >= b
    &&& s.t1.i0 >= b
    &&& s.t1.i1 >= b
    &&& s.t1.i2 >= b
}

/// Every index of `s` is at most `b`.
pub open spec fn shape_all_le(s: ParticleShape, b: int) -> bool {
    &&& s.t0.i0 <= b
    &&& s.t0.i1 <= b
    &&& s.t0.i2 <= b
    &&& s.t1.i0 <= b
    &&& s.t1.i1 <= b
    &&& s.t1.i2 <= b
}

proof fn lemma_corner_products(x: int, y: int, z: int, w: int, h: int)
    by (nonlinear_arith)
    requires
        0 <= x,
        0 <= y,
        0 <= z,
        1 <= w,
        1 <= h,
    ensures
        0 <= z * w,
        z * w <= z * w * h,
        0 <= z * w * h,
        0 <= x * h,
        0 <= h * w,
        h * (w + 1) == h * w + h,
{
}

/// Translating the canonical quad of `(x, y, z)` by the flat-index delta of
/// the cell move `(dx, dy, dz)` yields the canonical quad of the target cell.
pub proof fn lemma_shape_move(
    s1: ParticleShape,
    s2: ParticleShape,
    x: int,
    y: int,
    z: int,
    dx: int,
    dy: int,
    dz: int,
    w: int,
    h: int,
)
    requires
        shape_matches(s1, x, y, z, w, h),
        shape_shifted(s2, s1, dz * w * h + dx * h + dy),
    ensures
        shape_matches(s2, x + dx, y + dy, z + dz, w, h),
{
    assert((z + dz) * w * h + (x + dx) * h + (y + dy) == z * w * h + x * h + y + (dz * w * h + dx
        * h + dy)) by (nonlinear_arith);
}

/// Room to translate: a canonical quad that is not on the respective
/// domain edge keeps all its indices inside `[0, w * w * h)` after the
/// per-direction delta.
pub proof fn lemma_shape_move_room(s: ParticleShape, x: int, y: int, z: int, w: int, h: int)
    requires
        shape_matches(s, x, y, z, w, h),
        0 <= x <= w - 2,
        0 <= y <= h - 1,
        0 <= z <= w - 2,
        2 <= w,
        1 <= h,
    ensures
        z >= 1 ==> shape_all_ge(s, w * h),
        x >= 1 ==> shape_all_ge(s, h),
        y >= 1 ==> shape_all_ge(s, 1),
        z <= w - 3 ==> shape_all_le(s, w * w * h - 1 - w * h),
        x <= w - 3 ==> shape_all_le(s, w * w * h - 1 - h),
{
    lemma_corner_products(x, y, z, w, h);
    if z >= 1 {
        assert(z * w * h >= w * h) by (nonlinear_arith)
            requires
                1 <= z,
                1 <= w,
                1 <= h,
        ;
    }
    if x >= 1 {
        assert(x * h >= h) by (nonlinear_arith)
            requires
                1 <= x,
                1 <= h,
        ;
    }
    if z <= w - 3 {
        assert(z * w * h + x * h + y + h * w + h + w * h <= w * w * h - 1) by (nonlinear_arith)
            requires
                0 <= x <= w - 2,
                0 <= y <= h - 1,
                0 <= z <= w - 3,
                2 <= w,
                1 <= h,
        ;
    }
    if x <= w - 3 {
        assert(z * w * h + x * h + y + h * w + h + h <= w * w * h - 1) by (nonlinear_arith)
            requires
                0 <= x <= w - 3,
                0 <= y <= h - 1,
                0 <= z <= w - 2,
                2 <= w,
                1 <= h,
        ;
    }
}

impl ParticleShape {
    /// Build the canonical quad for the particle at cell `(x, y, z)` in a
    /// lattice of `xz_size × xz_size` columns of `y_size` points.
    pub fn new(x: u32, y: u32, z: u32, xz_size: u32, y_size: u32) -> (r: ParticleShape)
        requires
            x < xz_size,
            y < y_size,
            z < xz_size,
            spec_corner(x as int, y as int, z as int, xz_size as int, y_size as int) + y_size * (
            xz_size + 1) <= u32::MAX,
        ensures
            shape_matches(r, x as int, y as int, z as int, xz_size as int, y_size as int),
    {
        proof {
            lemma_corner_products(x as int, y as int, z as int, xz_size as int, y_size as int);
            assert((z as int * xz_size as int) * y_size as int == z as int * xz_size as int
                * y_size as int) by (nonlinear_arith);
        }
        let zr = z * xz_size;
        let p0 = zr * y_size + x * y_size + y;
        let p1 = p0 + y_size;
        let p3 = p0 + y_size * xz_size;
        let p2 = p3 + y_size;
        ParticleShape { t0: TriangleIdx { i0: p0, i1: p1, i2: p2 }, t1: TriangleIdx {
            i0: p0,
            i1: p3,
            i2: p2,
        } }
    }

    /// Translate the quad one cell down the column.
    pub fn move_down(&mut self)
        requires
            shape_all_ge(*old(self), 1),
        ensures
            shape_shifted(*final(self), *old(self), -1),
    {
        self.t0.move_down();
        self.t1.move_down();
    }

    /// Translate the quad one row north (towards `z = 0`).
    pub fn move_north(&mut self, xz_size: u32, y_size: u32)
        requires
            xz_size * y_size <= u32::MAX,
            shape_all_ge(*old(self), xz_size * y_size),
        ensures
            shape_shifted(*final(self), *old(self), -(xz_size * y_size)),
    {
        let step = xz_size * y_size;
        self.t0.move_north(step);
        self.t1.move_north(step);
    }

    /// Translate the quad one row south (away from `z = 0`).
    pub fn move_south(&mut self, xz_size: u32, y_size: u32)
        requires
            xz_size * y_size <= u32::MAX,
            shape_all_le(*old(self), u32::MAX - xz_size * y_size),
        ensures
            shape_shifted(*final(self), *old(self), xz_size * y_size),
    {
        let step = xz_size * y_size;
        self.t0.move_south(step);
        self.t1.move_south(step);
    }

    /// Translate the quad one column west (towards `x = 0`).
    pub fn move_west(&mut self, y_size: u32)
        requires
            shape_all_ge(*old(self), y_size as int),
        ensures
            shape_shifted(*final(self), *old(self), -(y_size as int)),
    {
        self.t0.move_west(y_size);
        self.t1.move_west(y_size);
    }

    /// Translate the quad one column east (away from `x = 0`).
    pub fn move_east(&mut self, y_size: u32)
        requires
            shape_all_le(*old(self), u32::MAX - y_size),
        ensures
            shape_shifted(*final(self), *old(self), y_size as int),
    {
        self.t0.move_east(y_size);
        self.t1.move_east(y_size);
    }
}

impl TriangleIdx {
    /// Lower all three indices by one lattice point in the column.
    pub fn move_down(&mut self)
        requires
            1 <= old(self).i0,
            1 <= old(self).i1,
            1 <= old(self).i2,
        ensures
            final(self).i0 == old(self).i0 - 1,
            final(self).i1 == old(self).i1 - 1,
            final(self).i2 == old(self).i2 - 1,
    {
        self.i0 = self.i0 - 1;
        self.i1 = self.i1 - 1;
        self.i2 = self.i2 - 1;
    }

    /// Shift all three indices one row towards `z = 0`; `step` is the flat
    /// size of one lattice row.
    pub fn move_north(&mut self, step: u32)
        requires
            step <= old(self).i0,
            step <= old(self).i1,
            step <= old(self).i2,
        ensures
            final(self).i0 == old(self).i0 - step,
            final(self).i1 == old(self).i1 - step,
            final(self).i2 == old(self).i2 - step,
    {
        self.i0 = self.i0 - step;
        self.i1 = self.i1 - step;
        self.i2 = self.i2 - step;
    }

    /// Shift all three indices one row away from `z = 0`.
    pub fn move_south(&mut self, step: u32)
        requires
            old(self).i0 + step <= u32::MAX,
            old(self).i1 + step <= u32::MAX,
            old(self).i2 + step <= u32::MAX,
        ensures
            final(self).i0 == old(self).i0 + step,
            final(self).i1 == old(self).i1 + step,
            final(self).i2 == old(self).i2 + step,
    {
        self.i0 = self.i0 + step;
        self.i1 = self.i1 + step;
        self.i2 = self.i2 + step;
    }

    /// Shift all three indices one column towards `x = 0`; `step` is the
    /// flat size of one lattice column.
    pub fn move_west(&mut self, step: u32)
        requires
            step <= old(self).i0,
            step <= old(self).i1,
            step <= old(self).i2,
        ensures
            final(self).i0 == old(self).i0 - step,
            final(self).i1 == old(self).i1 - step,
            final(self).i2 == old(self).i2 - step,
    {
        self.i0 = self.i0 - step;
        self.i1 = self.i1 - step;
        self.i2 = self.i2 - step;
    }

    /// Shift all three indices one column away from `x = 0`.
    pub fn move_east(&mut self, step: u32)
        requires
            old(self).i0 + step <= u32::MAX,
            old(self).i1 + step <= u32::MAX,
            old(self).i2 + step <= u32::MAX,
        ensures
            final(self).i0 == old(self).i0 + step,
            final(self).i1 == old(self).i1 + step,
            final(self).i2 == old(self).i2 + step,
    {
        self.i0 = self.i0 + step;
        self.i1 = self.i1 + step;
        self.i2 = self.i2 + step;
    }
}

} // verus!
