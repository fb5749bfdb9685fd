//! The 3D occupancy column grid derived from a dense height grid.
//!
//! Each `(x, z)` column of the domain is a stack of `Border` voxels up to
//! the interpolated terrain height, with `Empty` above; the water automaton
//! later turns `Empty` cells into `Water` cells.  Every `Border` voxel
//! carries the flow direction of the steepest descending slope around it.

use vstd::prelude::*;
use crate::SCALE;
use crate::rng::rng_below;

verus! {

/// Persistent flow orientation of a voxel: either the terrain slope under a
/// border cell, or the direction a water particle is committed to.
#[derive(Copy, Clone, PartialEq, Eq, Structural, Debug)]
pub enum Direction {
    North,
    South,
    East,
    West,
}

impl Direction {
    /// The opposite compass direction.
    pub open spec fn spec_opposite(self) -> Direction {
        match self {
            Direction::East => Direction::West,
            Direction::West => Direction::East,
            Direction::South => Direction::North,
            Direction::North => Direction::South,
        }
    }

    /// The opposite compass direction.
    pub fn opposite(self) -> (r: Direction)
        ensures
            r == self.spec_opposite(),
    {
        match self {
            Direction::East => Direction::West,
            Direction::West => Direction::East,
            Direction::South => Direction::North,
            Direction::North => Direction::South,
        }
    }

    /// The direction a draw in `[0, 4)` denotes; every direction is
    /// reachable.
    pub open spec fn spec_of_draw(r: int) -> Direction {
        if r == 0 {
            Direction::East
        } else if r == 1 {
            Direction::West
        } else if r == 2 {
            Direction::South
        } else {
            Direction::North
        }
    }

    /// Map one draw to its direction.
    pub fn of_draw(r: u32) -> (d: Direction)
        ensures
            d == Direction::spec_of_draw(r as int),
    {
        match r {
            0 => Direction::East,
            1 => Direction::West,
            2 => Direction::South,
            _ => Direction::North,
        }
    }

    /// Draw one of the four directions from the generator, through the
    /// contracted draw-to-direction mapping.
    pub fn rand(rng: &mut rand::rngs::StdRng) -> Direction {
        Direction::of_draw(rng_below(rng, 4))
    }
}

/// One cell of the occupancy grid.
#[derive(Copy, Clone, PartialEq, Eq, Structural, Debug)]
pub enum Voxel {
    Empty,
    Border(Direction),
    Water(Direction, i32),
}

/// Sum of the four height-grid corners around column `(x, z)`.
pub open spec fn spec_corner_sum(hs: Seq<Seq<u32>>, z: int, x: int) -> int {
    hs[z][x] + hs[z][x + 1] + hs[z + 1][x] + hs[z + 1][x + 1]
}

/// Number of border voxels in column `(x, z)`: the four corner heights are
/// averaged and converted to a voxel count by rounding up against the voxel
/// step `SCALE / (h - 1)`.
pub open spec fn spec_col_count(hs: Seq<Seq<u32>>, z: int, x: int, h: int) -> int {
    (spec_corner_sum(hs, z, x) * (h - 1) + 4 * SCALE - 1) / (4 * SCALE)
}

/// Flow direction of the steepest descending corner pair, ties broken in
/// the fixed order South, North, East, West.
pub open spec fn spec_direction(tl: int, tr: int, bl: int, br: int) -> Direction {
    let top = tl + tr;
    let bot = bl + br;
    let left = tl + bl;
    let right = tr + br;
    if top > bot && top > left && top > right {
        Direction::South
    } else if bot > top && bot > left && bot > right {
        Direction::North
    } else if left > bot && left > top && left > right {
        Direction::East
    } else {
        Direction::West
    }
}

/// Flow direction of column `(x, z)` of the height grid.
pub open spec fn spec_col_direction(hs: Seq<Seq<u32>>, z: int, x: int) -> Direction {
    spec_direction(
        hs[z][x] as int,
        hs[z][x + 1] as int,
        hs[z + 1][x] as int,
        hs[z + 1][x + 1] as int,
    )
}

/// A well-formed `w × w` height grid: square, every height in `[0, SCALE]`.
pub open spec fn heights_wf(hs: Seq<Seq<u32>>, w: int) -> bool {
    &&& hs.len() == w
    &&& forall|z: int| 0 <= z < w ==> (#[trigger] hs[z]).len() == w
    &&& forall|z: int, x: int|
        0 <= z < w && 0 <= x < w ==> (#[trigger] hs[z][x]) <= SCALE
}

/// The voxel grid `g` is the border voxelization of height grid `hs`:
/// `(w-1) × (w-1)` columns of `h` cells, each column `Border` up to its
/// count and `Empty` above.
pub open spec fn is_voxelization(g: Seq<Seq<Seq<Voxel>>>, hs: Seq<Seq<u32>>, w: int, h: int) -> bool {
    &&& g.len() == w - 1
    &&& forall|z: int| 0 <= z < w - 1 ==> (#[trigger] g[z]).len() == w - 1
    &&& forall|z: int, x: int|
        0 <= z < w - 1 && 0 <= x < w - 1 ==> (#[trigger] g[z][x]).len() == h
    &&& forall|z: int, x: int, y: int|
        0 <= z < w - 1 && 0 <= x < w - 1 && 0 <= y < h ==> (#[trigger] g[z][x][y]) == (
        if y < spec_col_count(hs, z, x, h) {
            Voxel::Border(spec_col_direction(hs, z, x))
        } else {
            Voxel::Empty
        })
}

/// Pick the flow direction for a column from its four corner heights:
/// whichever side pair is highest pushes the water away from itself.
pub fn get_direction(top_left: u32, top_right: u32, bot_left: u32, bot_right: u32) -> (r: Direction)
    requires
        top_left <= SCALE,
        top_right <= SCALE,
        bot_left <= SCALE,
        bot_right <= SCALE,
    ensures
        r == spec_direction(top_left as int, top_right as int, bot_left as int, bot_right as int),
{
    let top = top_left + top_right;
    let bot = bot_left + bot_right;
    let left = top_left + bot_left;
    let right = top_right + bot_right;
    if top > bot && top > left && top > right {
        Direction::South
    } else if bot > top && bot > left && bot > right {
        Direction::North
    } else if left > bot && left > top && left > right {
        Direction::East
    } else {
        Direction::West
    }
}

/// Convert a dense `w × w` height grid into its `(w-1) × (w-1) × h` border
/// voxel grid (no water yet).
pub fn voxelize(grid_heights: &Vec<Vec<u32>>, h: usize) -> (r: Vec<Vec<Vec<Voxel>>>)
    requires
        heights_wf(grid_heights@.map_values(|row: Vec<u32>| row@), grid_heights@.len() as int),
        2 <= grid_heights@.len(),
        3 <= h <= 65536,
    ensures
        is_voxelization(
            r@.map_values(|side: Vec<Vec<Voxel>>| side@.map_values(|col: Vec<Voxel>| col@)),
            grid_heights@.map_values(|row: Vec<u32>| row@),
            grid_heights@.len() as int,
            h as int,
        ),
{
    let w = grid_heights.len();
    let ghost hs = grid_heights@.map_values(|row: Vec<u32>| row@);
    let mut borders: Vec<Vec<Vec<Voxel>>> = Vec::new();
    let mut z: usize = 0;
    while z < w - 1
        invariant
            heights_wf(hs, w as int),
            2 <= w,
            3 <= h <= 65536,
            hs == grid_heights@.map_values(|row: Vec<u32>| row@),
            w == grid_heights@.len(),
            z <= w - 1,
            borders@.len() == z,
            forall|zz: int| 0 <= zz < z ==> (#[trigger] borders@[zz])@.len() == w - 1,
            forall|zz: int, xx: int|
                0 <= zz < z && 0 <= xx < w - 1 ==> (#[trigger] borders@[zz]@[xx])@.len() == h,
            forall|zz: int, xx: int, yy: int|
                0 <= zz < z && 0 <= xx < w - 1 && 0 <= yy < h ==> (#[trigger] borders@[zz]@[xx]@[yy])
                    == (if yy < spec_col_count(hs, zz, xx, h as int) {
                    Voxel::Border(spec_col_direction(hs, zz, xx))
                } else {
                    Voxel::Empty
                }),
        decreases w - 1 - z,
    {
        let mut side: Vec<Vec<Voxel>> = Vec::new();
        let mut x: usize = 0;
        while x < w - 1
            invariant
                heights_wf(hs, w as int),
                2 <= w,
                3 <= h <= 65536,
                hs == grid_heights@.map_values(|row: Vec<u32>| row@),
                w == grid_heights@.len(),
                z < w - 1,
                x <= w - 1,
                side@.len() == x,
                forall|xx: int| 0 <= xx < x ==> (#[trigger] side@[xx])@.len() == h,
                forall|xx: int, yy: int|
                    0 <= xx < x && 0 <= yy < h ==> (#[trigger] side@[xx]@[yy]) == (
                    if yy < spec_col_count(hs, z as int, xx, h as int) {
                        Voxel::Border(spec_col_direction(hs, z as int, xx))
                    } else {
                        Voxel::Empty
                    }),
            decreases w - 1 - x,
        {
            let tl = grid_heights[z][x];
            let tr = grid_heights[z][x + 1];
            let bl = grid_heights[z + 1][x];
            let br = grid_heights[z + 1][x + 1];
            let sum: u64 = tl as u64 + tr as u64 + bl as u64 + br as u64;
            proof {
                assert(hs[z as int] == grid_heights@[z as int]@);
                assert(hs[z as int + 1] == grid_heights@[z as int + 1]@);
                assert(tl <= SCALE && tr <= SCALE && bl <= SCALE && br <= SCALE);
                assert(sum * (h as u64 - 1) <= 4 * (SCALE as u64) * 65536) by (nonlinear_arith)
                    requires
                        sum <= 4 * SCALE,
                        3 <= h <= 65536,
                ;
            }
            let cnt64: u64 = (sum * (h as u64 - 1) + (4 * SCALE as u64 - 1)) / (4 * SCALE as u64);
            assert(cnt64 == spec_col_count(hs, z as int, x as int, h as int));
            assert(cnt64 <= h) by {
                assert(sum * (h as u64 - 1) <= 4 * SCALE * (h - 1)) by (nonlinear_arith)
                    requires
                        sum <= 4 * SCALE,
                        3 <= h,
                ;
            }
            let cnt: usize = cnt64 as usize;
            let dir = get_direction(tl, tr, bl, br);
            let mut col: Vec<Voxel> = Vec::new();
            let mut y: usize = 0;
            while y < h
                invariant
                    y <= h,
                    col@.len() == y,
                    cnt == spec_col_count(hs, z as int, x as int, h as int),
                    dir == spec_col_direction(hs, z as int, x as int),
                    forall|yy: int|
                        0 <= yy < y ==> (#[trigger] col@[yy]) == (
                        if yy < cnt {
                            Voxel::Border(dir)
                        } else {
                            Voxel::Empty
                        }),
                decreases h - y,
            {
                if y < cnt {
                    col.push(Voxel::Border(dir));
                } else {
                    col.push(Voxel::Empty);
                }
                y = y + 1;
            }
            side.push(col);
            x = x + 1;
        }
        borders.push(side);
        z = z + 1;
    }
    borders
}

} // verus!
