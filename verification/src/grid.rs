//! The scattered-data height interpolator.
//!
//! A sparse set of control points, optionally padded with a zero-height
//! ring along the domain boundary, is turned into a dense `size × size`
//! height grid.  Two weighting policies are supported: maximum-weighted-
//! height selection with a clamped radial kernel, and a normalized
//! inverse-distance average.  All heights land in `[0, SCALE]`.

use vstd::prelude::*;
use vstd::arithmetic::div_mod::{lemma_div_is_ordered, lemma_div_multiples_vanish};
use crate::SCALE;
use crate::voxel::heights_wf;
use crate::parse::{Error, parse_points, parse_ok, spec_lines, line_point, err_bad_text,
    err_bad_shape, err_bad_number, err_bad_range};

verus! {

/// One user-supplied control point, in fixed-point milli-units:
/// `x, z` in `[-SCALE, SCALE]`, `y` in `[0, SCALE]`.
#[derive(Copy, Clone, PartialEq, Eq, Structural, Debug)]
pub struct ControlPoint {
    pub x: i64,
    pub y: i64,
    pub z: i64,
}

/// The control point lies inside the domain.
pub open spec fn cp_valid(p: ControlPoint) -> bool {
    &&& -(SCALE as int) <= p.x <= SCALE
    &&& 0 <= p.y <= SCALE
    &&& -(SCALE as int) <= p.z <= SCALE
}

/// Which weighting policy the interpolator uses.
#[derive(Copy, Clone, PartialEq, Eq, Structural, Debug)]
pub enum GridingAlgo {
    RadialBasisFunction,
    Kriging,
}

/// Planar coordinate of grid cell `c` of `size`: the cells sweep the
/// domain from `-SCALE` towards `SCALE` in steps of `2 * SCALE / size`.
pub open spec fn cell_coord(c: int, size: int) -> int {
    -(SCALE as int) + 2 * SCALE * c / size
}

/// Squared planar distance between a control point and a cell centre.
pub open spec fn dist2(p: ControlPoint, cx: int, cz: int) -> int {
    (p.x - cx) * (p.x - cx) + (p.z - cz) * (p.z - cz)
}

/// Radial kernel `1 - 5·d²`, scaled by `1_000_000` and clamped at zero:
/// a non-increasing function of the distance.
pub open spec fn rbf_weight(d2: int) -> int {
    if 5 * d2 >= 1_000_000 {
        0
    } else {
        1_000_000 - 5 * d2
    }
}

/// Contribution of one control point under the radial policy: its height
/// scaled by its weight.
pub open spec fn rbf_contrib(p: ControlPoint, cx: int, cz: int) -> int {
    rbf_weight(dist2(p, cx, cz)) * p.y / 1_000_000
}

/// Height of a cell under the radial policy: the maximum weighted height
/// over all control points (zero when there are none).
pub open spec fn spec_rbf_height(ps: Seq<ControlPoint>, cx: int, cz: int) -> int
    decreases ps.len(),
{
    if ps.len() == 0 {
        0
    } else {
        let rest = spec_rbf_height(ps.drop_last(), cx, cz);
        let c = rbf_contrib(ps.last(), cx, cz);
        if c > rest {
            c
        } else {
            rest
        }
    }
}

/// Inverse-distance weight, scaled by `1_000_000_000`, with the squared
/// distance clamped to a floor of one to avoid division by zero.
pub open spec fn inv_weight(d2: int) -> int {
    1_000_000_000int / (if d2 < 1 {
        1int
    } else {
        d2
    })
}

/// Weighted height sum of the inverse-distance policy.
pub open spec fn spec_inv_num(ps: Seq<ControlPoint>, cx: int, cz: int) -> int
    decreases ps.len(),
{
    if ps.len() == 0 {
        0
    } else {
        spec_inv_num(ps.drop_last(), cx, cz) + inv_weight(dist2(ps.last(), cx, cz)) * ps.last().y
    }
}

/// Weight sum of the inverse-distance policy.
pub open spec fn spec_inv_den(ps: Seq<ControlPoint>, cx: int, cz: int) -> int
    decreases ps.len(),
{
    if ps.len() == 0 {
        0
    } else {
        spec_inv_den(ps.drop_last(), cx, cz) + inv_weight(dist2(ps.last(), cx, cz))
    }
}

/// Height of a cell under the inverse-distance policy: the normalized
/// weighted average of the control-point heights (zero when there are
/// none).
pub open spec fn spec_inv_height(ps: Seq<ControlPoint>, cx: int, cz: int) -> int {
    if spec_inv_den(ps, cx, cz) == 0 {
        0
    } else {
        spec_inv_num(ps, cx, cz) / spec_inv_den(ps, cx, cz)
    }
}

/// Height of grid cell `(r, c)` for the chosen policy.
pub open spec fn spec_grid_height(
    ps: Seq<ControlPoint>,
    r: int,
    c: int,
    size: int,
    algo: GridingAlgo,
) -> int {
    let cx = cell_coord(c, size);
    let cz = cell_coord(r, size);
    match algo {
        GridingAlgo::RadialBasisFunction => spec_rbf_height(ps, cx, cz),
        GridingAlgo::Kriging => spec_inv_height(ps, cx, cz),
    }
}

/// The ring point at flat position `n` of the synthetic boundary padding:
/// groups of four zero-height points walk along the four domain edges.
pub open spec fn spec_ring_point(n: int, count: int) -> ControlPoint {
    let k = n / 4 + 1;
    let coord = 2 * SCALE * k / count;
    if n % 4 == 0 {
        ControlPoint { x: (-(SCALE as int) + coord) as i64, y: 0, z: (-(SCALE as int)) as i64 }
    } else if n % 4 == 1 {
        ControlPoint { x: SCALE as i64, y: 0, z: (-(SCALE as int) + coord) as i64 }
    } else if n % 4 == 2 {
        ControlPoint { x: (SCALE - coord) as i64, y: 0, z: SCALE as i64 }
    } else {
        ControlPoint { x: (-(SCALE as int)) as i64, y: 0, z: (SCALE - coord) as i64 }
    }
}

proof fn lemma_cell_coord_bounds(c: int, size: int)
    requires
        0 <= c < size,
        1 <= size,
    ensures
        -(SCALE as int) <= cell_coord(c, size) <= SCALE,
{
    assert(0 <= 2 * SCALE * c / size <= 2 * SCALE) by (nonlinear_arith)
        requires
            0 <= c < size,
            1 <= size,
    ;
}

proof fn lemma_rbf_contrib_bounds(p: ControlPoint, cx: int, cz: int)
    requires
        cp_valid(p),
    ensures
        0 <= rbf_contrib(p, cx, cz) <= SCALE,
{
    let d2 = dist2(p, cx, cz);
    assert(0 <= (p.x - cx) * (p.x - cx) + (p.z - cz) * (p.z - cz)) by (nonlinear_arith);
    let w = rbf_weight(d2);
    assert(0 <= w <= 1_000_000);
    assert(0 <= w * p.y <= 1_000_000 * SCALE) by (nonlinear_arith)
        requires
            0 <= w <= 1_000_000,
            0 <= p.y <= SCALE,
    ;
    lemma_div_is_ordered(w * p.y, 1_000_000 * (SCALE as int), 1_000_000);
    lemma_div_multiples_vanish(SCALE as int, 1_000_000);
    assert(0 <= w * p.y / 1_000_000) by (nonlinear_arith)
        requires
            0 <= w * p.y,
    ;
}

/// Append a synthetic ring of `4 * count` zero-height points along the
/// domain boundary (to pull the interpolated edges toward zero), followed
/// by the user points.
pub fn add_zeros_to_edges(input: &Vec<ControlPoint>, count: usize) -> (r: Vec<ControlPoint>)
    requires
        1 <= count <= 1000,
        forall|i: int| 0 <= i < input@.len() ==> cp_valid(#[trigger] input@[i]),
    ensures
        r@.len() == 4 * count + input@.len(),
        forall|n: int| 0 <= n < 4 * count ==> #[trigger] r@[n] == spec_ring_point(n, count as int),
        forall|n: int|
            4 * count <= n < r@.len() ==> #[trigger] r@[n] == input@[n - 4 * count],
        forall|n: int| 0 <= n < r@.len() ==> cp_valid(#[trigger] r@[n]),
{
    let mut out: Vec<ControlPoint> = Vec::new();
    let mut i: usize = 0;
    while i < count
        invariant
            1 <= count <= 1000,
            i <= count,
            out@.len() == 4 * i,
            forall|n: int|
                0 <= n < out@.len() ==> #[trigger] out@[n] == spec_ring_point(n, count as int),
            forall|n: int| 0 <= n < out@.len() ==> cp_valid(#[trigger] out@[n]),
        decreases count - i,
    {
        let k: i64 = i as i64 + 1;
        let coord: i64 = 2 * (SCALE as i64) * k / (count as i64);
        proof {
            assert(0 <= 2 * SCALE * (k as int) / (count as int) <= 2 * SCALE) by (nonlinear_arith)
                requires
                    1 <= k as int <= count as int,
                    1 <= count as int,
            ;
            vstd::arithmetic::div_mod::lemma_fundamental_div_mod_converse(
                4 * i as int,
                4,
                i as int,
                0,
            );
            vstd::arithmetic::div_mod::lemma_fundamental_div_mod_converse(
                4 * i as int + 1,
                4,
                i as int,
                1,
            );
            vstd::arithmetic::div_mod::lemma_fundamental_div_mod_converse(
                4 * i as int + 2,
                4,
                i as int,
                2,
            );
            vstd::arithmetic::div_mod::lemma_fundamental_div_mod_converse(
                4 * i as int + 3,
                4,
                i as int,
                3,
            );
        }
        out.push(ControlPoint { x: -(SCALE as i64) + coord, y: 0, z: -(SCALE as i64) });
        out.push(ControlPoint { x: SCALE as i64, y: 0, z: -(SCALE as i64) + coord });
        out.push(ControlPoint { x: SCALE as i64 - coord, y: 0, z: SCALE as i64 });
        out.push(ControlPoint { x: -(SCALE as i64), y: 0, z: SCALE as i64 - coord });
        i = i + 1;
    }
    let mut m: usize = 0;
    while m < input.len()
        invariant
            m <= input@.len(),
            out@.len() == 4 * count + m,
            forall|i2: int| 0 <= i2 < input@.len() ==> cp_valid(#[trigger] input@[i2]),
            forall|n: int|
                0 <= n < 4 * count ==> #[trigger] out@[n] == spec_ring_point(n, count as int),
            forall|n: int|
                4 * count <= n < out@.len() ==> #[trigger] out@[n] == input@[n - 4 * count],
            forall|n: int| 0 <= n < out@.len() ==> cp_valid(#[trigger] out@[n]),
        decreases input@.len() - m,
    {
        out.push(input[m]);
        m = m + 1;
    }
    out
}

/// Compute the squared planar distance between a valid control point and
/// a cell centre.
fn dist2_exec(p: ControlPoint, cx: i64, cz: i64) -> (d2: i64)
    requires
        cp_valid(p),
        -(SCALE as int) <= cx <= SCALE,
        -(SCALE as int) <= cz <= SCALE,
    ensures
        d2 == dist2(p, cx as int, cz as int),
        0 <= d2 <= 8_000_000,
{
    let dx = p.x - cx;
    let dz = p.z - cz;
    proof {
        assert(0 <= dx * dx <= 4_000_000) by (nonlinear_arith)
            requires
                -2000 <= dx <= 2000,
        ;
        assert(0 <= dz * dz <= 4_000_000) by (nonlinear_arith)
            requires
                -2000 <= dz <= 2000,
        ;
    }
    dx * dx + dz * dz
}

/// Height of one cell under the radial (maximum-weighted-height) policy.
fn rbf_calculate_point(poles: &Vec<ControlPoint>, cx: i64, cz: i64) -> (h: i64)
    requires
        forall|i: int| 0 <= i < poles@.len() ==> cp_valid(#[trigger] poles@[i]),
        -(SCALE as int) <= cx <= SCALE,
        -(SCALE as int) <= cz <= SCALE,
    ensures
        h == spec_rbf_height(poles@, cx as int, cz as int),
        0 <= h <= SCALE,
{
    let mut best: i64 = 0;
    let mut i: usize = 0;
    while i < poles.len()
        invariant
            forall|j: int| 0 <= j < poles@.len() ==> cp_valid(#[trigger] poles@[j]),
            -(SCALE as int) <= cx <= SCALE,
            -(SCALE as int) <= cz <= SCALE,
            i <= poles@.len(),
            best == spec_rbf_height(poles@.take(i as int), cx as int, cz as int),
            0 <= best <= SCALE,
        decreases poles@.len() - i,
    {
        let p = poles[i];
        let d2 = dist2_exec(p, cx, cz);
        let w: i64 = if 5 * d2 >= 1_000_000 {
            0
        } else {
            1_000_000 - 5 * d2
        };
        proof {
            assert(0 <= w * p.y <= 1_000_000 * SCALE) by (nonlinear_arith)
                requires
                    0 <= w <= 1_000_000,
                    0 <= p.y <= SCALE,
            ;
        }
        let c: i64 = w * p.y / 1_000_000;
        proof {
            lemma_rbf_contrib_bounds(p, cx as int, cz as int);
            assert(c == rbf_contrib(p, cx as int, cz as int));
            assert(poles@.take(i as int + 1).drop_last() =~= poles@.take(i as int));
            assert(poles@.take(i as int + 1).last() == p);
        }
        if c > best {
            best = c;
        }
        i = i + 1;
    }
    proof {
        assert(poles@.take(poles@.len() as int) =~= poles@);
    }
    best
}

/// Height of one cell under the normalized inverse-distance policy.
fn kriging_calculate_point(poles: &Vec<ControlPoint>, cx: i64, cz: i64) -> (h: i64)
    requires
        forall|i: int| 0 <= i < poles@.len() ==> cp_valid(#[trigger] poles@[i]),
        -(SCALE as int) <= cx <= SCALE,
        -(SCALE as int) <= cz <= SCALE,
    ensures
        h == spec_inv_height(poles@, cx as int, cz as int),
        0 <= h <= SCALE,
{
    let mut num: u128 = 0;
    let mut den: u128 = 0;
    let mut i: usize = 0;
    while i < poles.len()
        invariant
            forall|j: int| 0 <= j < poles@.len() ==> cp_valid(#[trigger] poles@[j]),
            -(SCALE as int) <= cx <= SCALE,
            -(SCALE as int) <= cz <= SCALE,
            i <= poles@.len(),
            num == spec_inv_num(poles@.take(i as int), cx as int, cz as int),
            den == spec_inv_den(poles@.take(i as int), cx as int, cz as int),
            den <= 1_000_000_000 * (i as int),
            num <= den * SCALE,
            (den == 0) == (i == 0),
        decreases poles@.len() - i,
    {
        let p = poles[i];
        let d2 = dist2_exec(p, cx, cz);
        let floor_d2: i64 = if d2 < 1 {
            1
        } else {
            d2
        };
        let rev: i64 = 1_000_000_000 / floor_d2;
        proof {
            assert(1_000_000_000int / (floor_d2 as int) >= 1) by (nonlinear_arith)
                requires
                    1 <= floor_d2 as int <= 8_000_000,
            ;
            assert(1_000_000_000int / (floor_d2 as int) <= 1_000_000_000) by (nonlinear_arith)
                requires
                    1 <= floor_d2 as int,
            ;
            assert(0 <= rev as int * p.y <= rev as int * SCALE) by (nonlinear_arith)
                requires
                    0 <= rev as int,
                    0 <= p.y <= SCALE,
            ;
            assert(1_000_000_000 * (i as int) + 1_000_000_000 <= 1_000_000_000 * (i as int + 1))
                by (nonlinear_arith);
            assert(1_000_000_000 * (i as int + 1) < u128::MAX) by (nonlinear_arith)
                requires
                    i as int + 1 <= 0x1_0000_0000_0000_0000,
            ;
            assert((den + rev) * SCALE == den * SCALE + rev as int * SCALE) by (nonlinear_arith);
            assert(poles@.take(i as int + 1).drop_last() =~= poles@.take(i as int));
            assert(poles@.take(i as int + 1).last() == p);
        }
        num = num + (rev * p.y) as u128;
        den = den + rev as u128;
        i = i + 1;
    }
    proof {
        assert(poles@.take(poles@.len() as int) =~= poles@);
    }
    if den == 0 {
        0
    } else {
        let h128 = num / den;
        proof {
            lemma_div_is_ordered(num as int, den as int * SCALE, den as int);
            assert(den as int * SCALE / den as int == SCALE) by (nonlinear_arith)
                requires
                    1 <= den as int,
            ;
            assert(0 <= num as int / den as int) by (nonlinear_arith)
                requires
                    0 <= num as int,
                    1 <= den as int,
            ;
        }
        h128 as i64
    }
}

/// Interpolate the dense `size × size` height grid from the control
/// points with the chosen policy.  Every produced height lies in
/// `[0, SCALE]`, and identical inputs give identical grids.
pub fn build(points: &Vec<ControlPoint>, size: usize, algo: GridingAlgo) -> (r: Vec<Vec<u32>>)
    requires
        1 <= size <= 65536,
        forall|i: int| 0 <= i < points@.len() ==> cp_valid(#[trigger] points@[i]),
    ensures
        r@.len() == size,
        forall|i: int| 0 <= i < size ==> (#[trigger] r@[i])@.len() == size,
        forall|i: int, j: int|
            0 <= i < size && 0 <= j < size ==> (#[trigger] r@[i]@[j]) as int == spec_grid_height(
                points@,
                i,
                j,
                size as int,
                algo,
            ),
        forall|i: int, j: int|
            0 <= i < size && 0 <= j < size ==> (#[trigger] r@[i]@[j]) <= SCALE,
{
    let mut grid: Vec<Vec<u32>> = Vec::new();
    let mut r: usize = 0;
    while r < size
        invariant
            1 <= size <= 65536,
            forall|i: int| 0 <= i < points@.len() ==> cp_valid(#[trigger] points@[i]),
            r <= size,
            grid@.len() == r,
            forall|i: int| 0 <= i < r ==> (#[trigger] grid@[i])@.len() == size,
            forall|i: int, j: int|
                0 <= i < r && 0 <= j < size ==> (#[trigger] grid@[i]@[j]) as int
                    == spec_grid_height(points@, i, j, size as int, algo),
            forall|i: int, j: int|
                0 <= i < r && 0 <= j < size ==> (#[trigger] grid@[i]@[j]) <= SCALE,
        decreases size - r,
    {
        proof {
            assert(0 <= 2 * (SCALE as int) * (r as int) <= 2 * 1000 * 65536) by (nonlinear_arith)
                requires
                    0 <= r as int <= 65536,
                    SCALE == 1000,
            ;
            lemma_cell_coord_bounds(r as int, size as int);
        }
        let cz: i64 = -(SCALE as i64) + 2 * (SCALE as i64) * (r as i64) / (size as i64);
        let mut row: Vec<u32> = Vec::new();
        let mut c: usize = 0;
        while c < size
            invariant
                1 <= size <= 65536,
                forall|i: int| 0 <= i < points@.len() ==> cp_valid(#[trigger] points@[i]),
                r < size,
                c <= size,
                cz == cell_coord(r as int, size as int),
                -(SCALE as int) <= cz <= SCALE,
                row@.len() == c,
                forall|j: int|
                    0 <= j < c ==> (#[trigger] row@[j]) as int == spec_grid_height(
                        points@,
                        r as int,
                        j,
                        size as int,
                        algo,
                    ),
                forall|j: int| 0 <= j < c ==> (#[trigger] row@[j]) <= SCALE,
            decreases size - c,
        {
            proof {
                assert(0 <= 2 * (SCALE as int) * (c as int) <= 2 * 1000 * 65536)
                    by (nonlinear_arith)
                    requires
                        0 <= c as int <= 65536,
                        SCALE == 1000,
                ;
                lemma_cell_coord_bounds(c as int, size as int);
            }
            let cx: i64 = -(SCALE as i64) + 2 * (SCALE as i64) * (c as i64) / (size as i64);
            let h: i64 = match algo {
                GridingAlgo::RadialBasisFunction => rbf_calculate_point(points, cx, cz),
                GridingAlgo::Kriging => kriging_calculate_point(points, cx, cz),
            };
            row.push(h as u32);
            c = c + 1;
        }
        grid.push(row);
        r = r + 1;
    }
    grid
}

/// A built height grid together with the control points it came from
/// (the user points behind the synthetic boundary ring).
pub struct Grid {
    poles: Vec<ControlPoint>,
    data: Vec<Vec<u32>>,
}

impl Grid {
    /// The control points the grid is interpolated from.
    pub closed spec fn points(self) -> Seq<ControlPoint> {
        self.poles@
    }

    /// The interpolated heights.
    pub closed spec fn heights(self) -> Seq<Seq<u32>> {
        self.data@.map_values(|row: Vec<u32>| row@)
    }

    /// Side length of the height grid.
    pub closed spec fn gsize(self) -> int {
        self.data@.len() as int
    }

    /// Valid control points, and a square grid of heights in
    /// `[0, SCALE]`.
    pub closed spec fn wf(self) -> bool {
        &&& forall|i: int| 0 <= i < self.poles@.len() ==> cp_valid(#[trigger] self.poles@[i])
        &&& heights_wf(self.heights(), self.gsize())
    }

    /// Parse the height source text, pad it with a ten-step zero-height
    /// boundary ring, and interpolate the `size × size` height grid with
    /// the chosen policy.
    pub fn new(data: &[u8], size: usize, griding_algo: GridingAlgo) -> (r: Result<Grid, Error>)
        requires
            1 <= size <= 65536,
        ensures
            match r {
                Ok(g) => {
                    &&& parse_ok(data@)
                    &&& g.wf()
                    &&& g.gsize() == size
                    &&& g.points().len() == 40 + spec_lines(data@).len()
                    &&& forall|n: int|
                        0 <= n < 40 ==> #[trigger] g.points()[n] == spec_ring_point(n, 10)
                    &&& forall|n: int|
                        40 <= n < g.points().len() ==> #[trigger] g.points()[n] == line_point(
                            spec_lines(data@)[n - 40],
                        )
                    &&& forall|i: int, j: int|
                        0 <= i < size && 0 <= j < size ==> (#[trigger] g.heights()[i][j]) as int
                            == spec_grid_height(g.points(), i, j, size as int, griding_algo)
                },
                Err(e) => match e {
                    Error::UnableConvertFileToString { name } => err_bad_text(data@, name@),
                    Error::PointDoesNotHave3Components { name } => err_bad_shape(data@, name@),
                    Error::ComponentIsNotNumeric { name } => err_bad_number(data@, name@),
                    Error::ComponentXNotValid { name } => err_bad_range(data@, name@, 0),
                    Error::ComponentYNotValid { name } => err_bad_range(data@, name@, 1),
                    Error::ComponentZNotValid { name } => err_bad_range(data@, name@, 2),
                },
            },
    {
        let pts = match parse_points(data) {
            Ok(p) => p,
            Err(e) => {
                return Err(e);
            },
        };
        let padded = add_zeros_to_edges(&pts, 10);
        let grid = build(&padded, size, griding_algo);
        let g = Grid { poles: padded, data: grid };
        proof {
            assert forall|i: int, j: int|
                0 <= i < size && 0 <= j < size implies (#[trigger] g.heights()[i][j]) as int
                == spec_grid_height(g.points(), i, j, size as int, griding_algo) by {
                assert(g.heights()[i] == g.data@[i]@);
            }
            assert forall|i: int| 0 <= i < size implies (#[trigger] g.heights()[i]).len()
                == size by {
                assert(g.heights()[i] == g.data@[i]@);
            }
            assert forall|i: int, j: int|
                0 <= i < size && 0 <= j < size implies (#[trigger] g.heights()[i][j]) <= SCALE by {
                assert(g.heights()[i] == g.data@[i]@);
            }
        }
        Ok(g)
    }

    /// Borrow the interpolated height grid.
    pub fn get_data(&self) -> (r: &Vec<Vec<u32>>)
        ensures
            r@.map_values(|row: Vec<u32>| row@) == self.heights(),
            r@.len() == self.gsize(),
            self.wf() ==> heights_wf(r@.map_values(|row: Vec<u32>| row@), r@.len() as int),
    {
        &self.data
    }

    /// Re-interpolate the height grid from the stored control points,
    /// with a new size or policy.
    pub fn update_grid(&mut self, size: usize, griding_algo: GridingAlgo)
        requires
            old(self).wf(),
            1 <= size <= 65536,
        ensures
            final(self).wf(),
            final(self).points() == old(self).points(),
            final(self).gsize() == size,
            forall|i: int, j: int|
                0 <= i < size && 0 <= j < size ==> (#[trigger] final(self).heights()[i][j]) as int
                    == spec_grid_height(
                    final(self).points(),
                    i,
                    j,
                    size as int,
                    griding_algo,
                ),
    {
        let d = build(&self.poles, size, griding_algo);
        self.data = d;
        proof {
            assert forall|i: int, j: int|
                0 <= i < size && 0 <= j < size implies (#[trigger] self.heights()[i][j]) as int
                == spec_grid_height(self.points(), i, j, size as int, griding_algo) by {
                assert(self.heights()[i] == self.data@[i]@);
            }
            assert forall|i: int| 0 <= i < size implies (#[trigger] self.heights()[i]).len()
                == size by {
                assert(self.heights()[i] == self.data@[i]@);
            }
            assert forall|i: int, j: int|
                0 <= i < size && 0 <= j < size implies (#[trigger] self.heights()[i][j])
                <= SCALE by {
                assert(self.heights()[i] == self.data@[i]@);
            }
        }
    }
}

} // verus!
