//! The voxel water-flow automaton.
//!
//! A `Water` value owns the voxel grid, the list of active particles and
//! the per-particle geometry quads, and advances them tick by tick.  The
//! central invariant (`wf`): every active particle sits on a `Water` voxel
//! inside the domain, no two particles share a cell, and each particle's
//! quad equals the canonical shape formula at its current location.

use vstd::prelude::*;
use crate::voxel::{Direction, Voxel, voxelize, heights_wf, spec_col_count, spec_col_direction};
use crate::particle_shape::{ParticleShape, shape_matches, spec_corner, lemma_shape_move};
use crate::rng::{rng_from_seed, rng_below, rng_bool};
use crate::vertex::{Vertex, spec_vertex_at, generate_vertex_grid};
use vstd::arithmetic::div_mod::lemma_fundamental_div_mod_converse;

verus! {

/// Grid location of an active particle, indexed `[z][x][y]`.
#[derive(Copy, Clone, PartialEq, Eq, Structural, Debug)]
pub struct Loc {
    pub x: usize,
    pub y: usize,
    pub z: usize,
}

/// Tunable constants of the automaton; the defaults match the behaviour
/// described in the component design.
#[derive(Copy, Clone, PartialEq, Eq, Structural, Debug)]
pub struct WaterConfig {
    /// Energy gained by one cell of free fall; also the initial energy of a
    /// rain particle.
    pub gravity_force: i32,
    /// Energy cost of a move along the particle's primary axis.
    pub primary_cost: i32,
    /// Energy cost of a move along the alternate (perpendicular) axis.
    pub lateral_cost: i32,
    /// Energy a collision adds to the occupant below.
    pub collision_gain: i32,
    /// Numerator of the wave slab's share of the height range.
    pub wave_num: usize,
    /// Denominator of the wave slab's share of the height range.
    pub wave_den: usize,
}

impl WaterConfig {
    /// The default tuning; waves fill the lower two thirds of the height
    /// range.
    pub open spec fn spec_default() -> WaterConfig {
        WaterConfig {
            gravity_force: 10,
            primary_cost: 1,
            lateral_cost: 3,
            collision_gain: 1,
            wave_num: 2,
            wave_den: 3,
        }
    }

    /// Config values small enough that energy arithmetic stays in `i32`,
    /// and a wave share that is a genuine fraction of the height range.
    pub open spec fn bounded(self) -> bool {
        &&& 0 <= self.gravity_force <= 100_000
        &&& 0 <= self.primary_cost <= 100_000
        &&& 0 <= self.lateral_cost <= 100_000
        &&& 0 <= self.collision_gain <= 100_000
        &&& 1 <= self.wave_den <= 1000
        &&& self.wave_num <= self.wave_den
    }

    /// Height of the wave slab for a column height `vh`: the configured
    /// share of the height range, rounded down by the division.
    pub open spec fn spec_wave_y_hi(self, vh: int) -> int {
        vh / (self.wave_den as int) * (self.wave_num as int)
    }
}

impl Default for WaterConfig {
    /// The default tuning.
    fn default() -> (r: WaterConfig)
        ensures
            r == WaterConfig::spec_default(),
    {
        WaterConfig {
            gravity_force: 10,
            primary_cost: 1,
            lateral_cost: 3,
            collision_gain: 1,
            wave_num: 2,
            wave_den: 3,
        }
    }
}

/// Energy addition saturating at `i32::MAX`.
pub open spec fn spec_energy_add(e: int, d: int) -> int {
    if e + d > i32::MAX {
        i32::MAX as int
    } else {
        e + d
    }
}

fn energy_add(e: i32, d: i32) -> (r: i32)
    requires
        0 <= d,
    ensures
        r == spec_energy_add(e as int, d as int),
{
    if e > i32::MAX - d {
        i32::MAX
    } else {
        e + d
    }
}

/// What flushing makes of one voxel: water drains away, terrain stays.
pub open spec fn spec_flushed_voxel(v: Voxel) -> Voxel {
    match v {
        Voxel::Water(_, _) => Voxel::Empty,
        other => other,
    }
}

/// The voxel water-flow automaton: grid, fill level, active particles and
/// their renderable quads, plus the seeded random source for tie-breaks.
pub struct Water {
    /// Upper bound of the fill level; equals the column height.
    water_level_max: usize,
    /// Settle threshold: particles below it are asleep.
    water_level: usize,
    /// Columns per side of the voxel grid (lattice width minus one).
    vw: usize,
    /// Height of each voxel column.
    vh: usize,
    /// Lattice width of the vertex grid, `vw + 1`.
    lat_w: usize,
    /// Voxel occupancy, indexed `[z][x][y]`.
    grid: Vec<Vec<Vec<Voxel>>>,
    /// Location of each active particle.
    locations: Vec<Loc>,
    /// Geometry quad of each active particle, parallel to `locations`.
    ib_data: Vec<ParticleShape>,
    /// Tuning constants.
    cfg: WaterConfig,
    /// Seeded random source.
    rng: rand::rngs::StdRng,
}

impl Water {
    /// Columns per side of the voxel grid.
    pub closed spec fn side(self) -> int {
        self.vw as int
    }

    /// Height of each voxel column.
    pub closed spec fn height(self) -> int {
        self.vh as int
    }

    /// Lattice width of the vertex grid.
    pub closed spec fn lattice(self) -> int {
        self.lat_w as int
    }

    /// Current fill level.
    pub closed spec fn level(self) -> int {
        self.water_level as int
    }

    /// Number of active particles.
    pub closed spec fn active(self) -> int {
        self.locations@.len() as int
    }

    /// The voxel at `[z][x][y]`.
    pub closed spec fn voxel(self, z: int, x: int, y: int) -> Voxel {
        self.grid@[z]@[x]@[y]
    }

    /// Location of active particle `i`.
    pub closed spec fn loc(self, i: int) -> Loc {
        self.locations@[i]
    }

    /// Geometry quad of active particle `i`.
    pub closed spec fn shape(self, i: int) -> ParticleShape {
        self.ib_data@[i]
    }

    /// The tuning constants.
    pub closed spec fn config(self) -> WaterConfig {
        self.cfg
    }

    /// The active particles as one sequence of location/quad pairs.
    pub closed spec fn particles(self) -> Seq<(Loc, ParticleShape)> {
        Seq::new(self.locations@.len(), |i: int| (self.locations@[i], self.ib_data@[i]))
    }

    /// The grid has its stated dimensions and the flat lattice index of
    /// every cell fits in `u32`.
    pub closed spec fn dims_ok(self) -> bool {
        &&& 5 <= self.vw
        &&& 3 <= self.vh <= 65536
        &&& self.lat_w == self.vw + 1
        &&& self.lat_w <= 2001
        &&& self.water_level_max == self.vh
        &&& self.lat_w * self.lat_w * self.vh <= u32::MAX
        &&& self.grid@.len() == self.vw
        &&& forall|z: int| 0 <= z < self.vw ==> (#[trigger] self.grid@[z])@.len() == self.vw
        &&& forall|z: int, x: int|
            0 <= z < self.vw && 0 <= x < self.vw ==> (#[trigger] self.grid@[z]@[x])@.len()
                == self.vh
    }

    /// Particle `i` is inside the domain, sits on a `Water` voxel, and its
    /// quad is the canonical shape at its location.
    pub closed spec fn particle_ok(self, i: int) -> bool {
        let l = self.locations@[i];
        &&& l.x < self.vw
        &&& l.y < self.vh
        &&& l.z < self.vw
        &&& self.grid@[l.z as int]@[l.x as int]@[l.y as int] is Water
        &&& shape_matches(
            self.ib_data@[i],
            l.x as int,
            l.y as int,
            l.z as int,
            self.lat_w as int,
            self.vh as int,
        )
    }

    /// The automaton's well-formedness invariant.
    pub closed spec fn wf(self) -> bool {
        &&& self.dims_ok()
        &&& self.water_level + 2 <= self.vh
        &&& self.locations@.len() == self.ib_data@.len()
        &&& forall|i: int| 0 <= i < self.locations@.len() ==> self.particle_ok(i)
        &&& forall|i: int, j: int|
            0 <= i < j < self.locations@.len() ==> #[trigger] self.locations@[i]
                != #[trigger] self.locations@[j]
        &&& self.cfg.bounded()
    }

    /// `post` has the same dimensions and tuning as `pre`.
    pub open spec fn keeps_dims(self, pre: Water) -> bool {
        &&& self.side() == pre.side()
        &&& self.height() == pre.height()
        &&& self.lattice() == pre.lattice()
        &&& self.config() == pre.config()
    }

    /// The first `n` particles of `self` are those of `pre`, unchanged in
    /// place and shape.
    pub open spec fn particles_preserved(self, pre: Water, n: int) -> bool {
        &&& forall|i: int| 0 <= i < n ==> #[trigger] self.loc(i) == pre.loc(i)
        &&& forall|i: int| 0 <= i < n ==> #[trigger] self.shape(i) == pre.shape(i)
    }

    /// Particle `i` of `self` is some particle of `pre`, with the same
    /// location and shape.
    pub open spec fn came_from(self, pre: Water, i: int) -> bool {
        exists|j: int|
            0 <= j < pre.active() && self.loc(i) == #[trigger] pre.loc(j) && self.shape(i)
                == pre.shape(j)
    }

    /// Some particle of `self` equals particle `j` of `pre` in place and
    /// shape: `j` survived.
    pub open spec fn survives(self, pre: Water, j: int) -> bool {
        exists|i: int|
            0 <= i < self.active() && #[trigger] self.loc(i) == pre.loc(j) && self.shape(i)
                == pre.shape(j)
    }

    /// `post` is the flushed image of `pre`: level zero, no particles, and
    /// every water voxel drained.
    pub open spec fn is_flush_of(self, pre: Water) -> bool {
        &&& self.keeps_dims(pre)
        &&& self.level() == 0
        &&& self.active() == 0
        &&& forall|z: int, x: int, y: int|
            0 <= z < pre.side() && 0 <= x < pre.side() && 0 <= y < pre.height()
                ==> #[trigger] self.voxel(z, x, y) == spec_flushed_voxel(pre.voxel(z, x, y))
    }

    /// Overwrite one voxel, leaving every other part of the state alone.
    fn set_voxel(&mut self, z: usize, x: usize, y: usize, v: Voxel)
        requires
            old(self).dims_ok(),
            z < old(self).side(),
            x < old(self).side(),
            y < old(self).height(),
        ensures
            final(self).dims_ok(),
            final(self).voxel(z as int, x as int, y as int) == v,
            forall|zz: int, xx: int, yy: int|
                0 <= zz < final(self).side() && 0 <= xx < final(self).side() && 0 <= yy < final(self).height()
                    && !(zz == z && xx == x && yy == y) ==> #[trigger] final(self).voxel(zz, xx, yy)
                    == old(self).voxel(zz, xx, yy),
            final(self).locations@ == old(self).locations@,
            final(self).ib_data@ == old(self).ib_data@,
            final(self).water_level == old(self).water_level,
            final(self).water_level_max == old(self).water_level_max,
            final(self).vw == old(self).vw,
            final(self).vh == old(self).vh,
            final(self).lat_w == old(self).lat_w,
            final(self).cfg == old(self).cfg,
            final(self).rng == old(self).rng,
            water_count(*final(self), final(self).side()) == water_count(
                *old(self),
                old(self).side(),
            ) + (if v is Water {
                1int
            } else {
                0int
            }) - (if old(self).voxel(z as int, x as int, y as int) is Water {
                1int
            } else {
                0int
            }),
    {
        let ghost pre = *self;
        self.grid[z][x][y] = v;
        proof {
            assert(self.grid@ == pre.grid@.update(
                z as int,
                self.grid@[z as int],
            ));
            assert(self.grid@[z as int]@ == pre.grid@[z as int]@.update(
                x as int,
                self.grid@[z as int]@[x as int],
            ));
            assert(self.grid@[z as int]@[x as int]@ == pre.grid@[z as int]@[x as int]@.update(
                y as int,
                v,
            ));
            assert forall|zz: int, xx: int, yy: int|
                0 <= zz < self.side() && 0 <= xx < self.side() && 0 <= yy < self.height() && !(zz
                == z && xx == x && yy == y) implies #[trigger] self.voxel(zz, xx, yy) == pre.voxel(
                zz,
                xx,
                yy,
            ) by {
                if zz != z {
                    assert(self.grid@[zz] == pre.grid@[zz]);
                } else if xx != x {
                    assert(self.grid@[zz]@[xx] == pre.grid@[zz]@[xx]);
                }
            }
            lemma_water_count_update(pre, *self, z as int, x as int, y as int);
        }
    }

    /// Build the automaton over the border voxelization of `grid_heights`,
    /// with no water yet; `seed` makes all random draws reproducible.
    pub fn new(grid_heights: &Vec<Vec<u32>>, seed: u64) -> (w: Water)
        requires
            heights_wf(
                grid_heights@.map_values(|row: Vec<u32>| row@),
                grid_heights@.len() as int,
            ),
            6 <= grid_heights@.len() <= 2000,
        ensures
            w.wf(),
            w.level() == 0,
            w.active() == 0,
            w.side() == grid_heights@.len() - 1,
            w.height() == grid_heights@.len() as int / 2,
            w.lattice() == grid_heights@.len(),
            w.config() == WaterConfig::spec_default(),
            forall|z: int, x: int, y: int|
                0 <= z < w.side() && 0 <= x < w.side() && 0 <= y < w.height()
                    ==> #[trigger] w.voxel(z, x, y) == (
                    if y < spec_col_count(
                        grid_heights@.map_values(|row: Vec<u32>| row@),
                        z,
                        x,
                        w.height(),
                    ) {
                        Voxel::Border(
                            spec_col_direction(grid_heights@.map_values(|row: Vec<u32>| row@), z, x),
                        )
                    } else {
                        Voxel::Empty
                    }),
    {
        let lat_w = grid_heights.len();
        let vh = lat_w / 2;
        let vw = lat_w - 1;
        proof {
            assert(lat_w * lat_w * vh <= 2000 * 2000 * 1000) by (nonlinear_arith)
                requires
                    6 <= lat_w <= 2000,
                    vh <= 1000,
            ;
        }
        let grid = voxelize(grid_heights, vh);
        let ghost hs = grid_heights@.map_values(|row: Vec<u32>| row@);
        let ghost g = grid@.map_values(|side: Vec<Vec<Voxel>>| side@.map_values(|col: Vec<Voxel>| col@));
        let w = Water {
            water_level_max: vh,
            water_level: 0,
            vw,
            vh,
            lat_w,
            grid,
            locations: Vec::new(),
            ib_data: Vec::new(),
            cfg: WaterConfig::default(),
            rng: rng_from_seed(seed),
        };
        proof {
            assert forall|z: int| 0 <= z < vw implies (#[trigger] w.grid@[z])@.len() == vw by {
                assert(g[z] == w.grid@[z]@.map_values(|col: Vec<Voxel>| col@));
            }
            assert forall|z: int, x: int|
                0 <= z < vw && 0 <= x < vw implies (#[trigger] w.grid@[z]@[x])@.len() == vh by {
                assert(g[z] == w.grid@[z]@.map_values(|col: Vec<Voxel>| col@));
                assert(g[z][x] == w.grid@[z]@[x]@);
            }
            assert forall|z: int, x: int, y: int|
                0 <= z < w.side() && 0 <= x < w.side() && 0 <= y < w.height() implies #[trigger] w
                .voxel(z, x, y) == (if y < spec_col_count(hs, z, x, w.height()) {
                Voxel::Border(spec_col_direction(hs, z, x))
            } else {
                Voxel::Empty
            }) by {
                assert(g[z] == w.grid@[z]@.map_values(|col: Vec<Voxel>| col@));
                assert(g[z][x] == w.grid@[z]@[x]@);
                assert(g[z][x][y] == w.voxel(z, x, y));
            }
        }
        w
    }

    /// Number of active particles.
    pub fn active_count(&self) -> (n: usize)
        ensures
            n == self.active(),
    {
        self.locations.len()
    }

    /// Current fill level.
    pub fn level_now(&self) -> (l: usize)
        ensures
            l == self.level(),
    {
        self.water_level
    }

    /// Columns per side of the voxel grid.
    pub fn side_len(&self) -> (s: usize)
        ensures
            s == self.side(),
    {
        self.vw
    }

    /// Height of each voxel column.
    pub fn height_len(&self) -> (h: usize)
        ensures
            h == self.height(),
    {
        self.vh
    }

    /// The voxel at `[z][x][y]`.
    pub fn voxel_at(&self, z: usize, x: usize, y: usize) -> (v: Voxel)
        requires
            self.wf(),
            z < self.side(),
            x < self.side(),
            y < self.height(),
        ensures
            v == self.voxel(z as int, x as int, y as int),
    {
        self.grid[z][x][y]
    }

    /// Location of active particle `i`.
    pub fn particle_location(&self, i: usize) -> (l: Loc)
        requires
            self.wf(),
            i < self.active(),
        ensures
            l == self.loc(i as int),
    {
        self.locations[i]
    }

    /// Geometry quad of active particle `i`.
    pub fn particle_quad(&self, i: usize) -> (s: ParticleShape)
        requires
            self.wf(),
            i < self.active(),
        ensures
            s == self.shape(i as int),
    {
        self.ib_data[i]
    }

    /// Drain the domain: reset the fill level, clear the active-particle
    /// list and its geometry, and turn every `Water` voxel back to `Empty`.
    pub fn flush(&mut self)
        requires
            old(self).wf(),
        ensures
            final(self).wf(),
            final(self).is_flush_of(*old(self)),
            forall|z: int, x: int, y: int|
                0 <= z < final(self).side() && 0 <= x < final(self).side() && 0 <= y < final(self).height() ==> !(#[trigger] final(self).voxel(z, x, y) is Water),
    {
        self.water_level = 0;
        self.ib_data.clear();
        self.locations.clear();
        let vw = self.vw;
        let vh = self.vh;
        let ghost pre_grid = self.grid@;
        let mut z: usize = 0;
        while z < vw
            invariant
                self.dims_ok(),
                self.cfg.bounded(),
                self.cfg == old(self).cfg,
                vw == self.vw,
                vh == self.vh,
                z <= vw,
                self.locations@.len() == 0,
                self.ib_data@.len() == 0,
                self.water_level == 0,
                self.grid@.len() == pre_grid.len(),
                forall|zz: int|
                    z <= zz < vw ==> #[trigger] self.grid@[zz] == pre_grid[zz],
                forall|zz: int, xx: int, yy: int|
                    0 <= zz < z && 0 <= xx < vw && 0 <= yy < vh
                        ==> #[trigger] self.grid@[zz]@[xx]@[yy] == spec_flushed_voxel(
                        pre_grid[zz]@[xx]@[yy]),
            decreases vw - z,
        {
            let mut x: usize = 0;
            while x < vw
                invariant
                    self.dims_ok(),
                    self.cfg.bounded(),
                    self.cfg == old(self).cfg,
                    vw == self.vw,
                    vh == self.vh,
                    z < vw,
                    x <= vw,
                    self.locations@.len() == 0,
                    self.ib_data@.len() == 0,
                    self.water_level == 0,
                    self.grid@.len() == pre_grid.len(),
                    forall|zz: int|
                        z < zz < vw ==> #[trigger] self.grid@[zz] == pre_grid[zz],
                    forall|xx: int|
                        x <= xx < vw ==> #[trigger] self.grid@[z as int]@[xx] == pre_grid[z as int]@[xx],
                    forall|zz: int, xx: int, yy: int|
                        0 <= zz < z && 0 <= xx < vw && 0 <= yy < vh
                            ==> #[trigger] self.grid@[zz]@[xx]@[yy] == spec_flushed_voxel(
                            pre_grid[zz]@[xx]@[yy]),
                    forall|xx: int, yy: int|
                        0 <= xx < x && 0 <= yy < vh
                            ==> #[trigger] self.grid@[z as int]@[xx]@[yy] == spec_flushed_voxel(
                            pre_grid[z as int]@[xx]@[yy]),
                decreases vw - x,
            {
                let mut y: usize = 0;
                while y < vh
                    invariant
                        self.dims_ok(),
                        self.cfg.bounded(),
                        self.cfg == old(self).cfg,
                        vw == self.vw,
                        vh == self.vh,
                        z < vw,
                        x < vw,
                        y <= vh,
                        self.locations@.len() == 0,
                        self.ib_data@.len() == 0,
                        self.water_level == 0,
                        self.grid@.len() == pre_grid.len(),
                        forall|zz: int|
                            z < zz < vw ==> #[trigger] self.grid@[zz] == pre_grid[zz],
                        forall|xx: int|
                            x < xx < vw ==> #[trigger] self.grid@[z as int]@[xx] == pre_grid[z as int]@[xx],
                        forall|zz: int, xx: int, yy: int|
                            0 <= zz < z && 0 <= xx < vw && 0 <= yy < vh
                                ==> #[trigger] self.grid@[zz]@[xx]@[yy] == spec_flushed_voxel(
                                pre_grid[zz]@[xx]@[yy]),
                        forall|xx: int, yy: int|
                            0 <= xx < x && 0 <= yy < vh
                                ==> #[trigger] self.grid@[z as int]@[xx]@[yy] == spec_flushed_voxel(
                                pre_grid[z as int]@[xx]@[yy]),
                        forall|yy: int|
                            0 <= yy < y
                                ==> #[trigger] self.grid@[z as int]@[x as int]@[yy]
                                == spec_flushed_voxel(pre_grid[z as int]@[x as int]@[yy]),
                        forall|yy: int|
                            y <= yy < vh
                                ==> #[trigger] self.grid@[z as int]@[x as int]@[yy]
                                == pre_grid[z as int]@[x as int]@[yy],
                    decreases vh - y,
                {
                    let v = self.grid[z][x][y];
                    let nv = match v {
                        Voxel::Border(d) => Voxel::Border(d),
                        Voxel::Water(_, _) => Voxel::Empty,
                        Voxel::Empty => Voxel::Empty,
                    };
                    self.grid[z][x][y] = nv;
                    y = y + 1;
                }
                x = x + 1;
            }
            z = z + 1;
        }
        proof {
            assert forall|zz: int, xx: int, yy: int|
                0 <= zz < old(self).side() && 0 <= xx < old(self).side() && 0 <= yy < old(self).height() implies #[trigger] self.voxel(zz, xx, yy) == spec_flushed_voxel(
                old(self).voxel(zz, xx, yy),
            ) by {
                assert(self.grid@[zz]@[xx]@[yy] == spec_flushed_voxel(pre_grid[zz]@[xx]@[yy]));
            }
        }
    }

    /// Inject one particle at `(x, y, z)` if that cell is empty; the
    /// particle starts flowing east with full gravity energy.  Returns
    /// whether a particle was added.
    pub fn inject_particle(&mut self, x: usize, y: usize, z: usize) -> (added: bool)
        requires
            old(self).wf(),
            x < old(self).side(),
            y < old(self).height(),
            z < old(self).side(),
        ensures
            final(self).wf(),
            final(self).keeps_dims(*old(self)),
            final(self).level() == old(self).level(),
            added == (old(self).voxel(z as int, x as int, y as int) is Empty),
            added ==> {
                &&& final(self).active() == old(self).active() + 1
                &&& final(self).loc(old(self).active()) == (Loc { x, y, z })
                &&& final(self).voxel(z as int, x as int, y as int) == Voxel::Water(
                    Direction::East,
                    old(self).config().gravity_force,
                )
            },
            !added ==> *final(self) == *old(self),
            forall|zz: int, xx: int, yy: int|
                0 <= zz < old(self).side() && 0 <= xx < old(self).side() && 0 <= yy < old(self).height() && !(zz == z && xx == x && yy == y) ==> #[trigger] final(self).voxel(zz, xx, yy) == old(self).voxel(zz, xx, yy),
            final(self).particles_preserved(*old(self), old(self).active()),
    {
        let is_empty = match self.grid[z][x][y] {
            Voxel::Empty => true,
            _ => false,
        };
        if !is_empty {
            return false;
        }
        let e = self.cfg.gravity_force;
        let ghost pre = *self;
        self.set_voxel(z, x, y, Voxel::Water(Direction::East, e));
        proof {
            lemma_particles_keep_ok(pre, *self, z as int, x as int, y as int);
        }
        self.push_particle(x, y, z);
        true
    }

    /// Append the particle record and its canonical quad for cell
    /// `(x, y, z)`; the caller has just made that voxel `Water`.
    fn push_particle(&mut self, x: usize, y: usize, z: usize)
        requires
            old(self).wf(),
            x < old(self).side(),
            y < old(self).height(),
            z < old(self).side(),
            old(self).voxel(z as int, x as int, y as int) is Water,
            forall|i: int|
                0 <= i < old(self).active() ==> (#[trigger] old(self).loc(i)) != (Loc { x, y, z }),
        ensures
            final(self).wf(),
            final(self).keeps_dims(*old(self)),
            final(self).level() == old(self).level(),
            final(self).active() == old(self).active() + 1,
            final(self).loc(old(self).active()) == (Loc { x, y, z }),
            forall|zz: int, xx: int, yy: int|
                0 <= zz < old(self).side() && 0 <= xx < old(self).side() && 0 <= yy < old(self).height() ==> #[trigger] final(self).voxel(zz, xx, yy) == old(self).voxel(
                    zz,
                    xx,
                    yy,
                ),
            final(self).particles_preserved(*old(self), old(self).active()),
    {
        proof {
            assert(spec_corner(
                x as int,
                y as int,
                z as int,
                self.lat_w as int,
                self.vh as int,
            ) + self.vh * (self.lat_w + 1) <= self.lat_w * self.lat_w * self.vh)
                by (nonlinear_arith)
                requires
                    x as int <= self.lat_w - 2,
                    y as int <= self.vh - 1,
                    z as int <= self.lat_w - 2,
                    2 <= self.lat_w,
                    1 <= self.vh,
            ;
            assert(self.lat_w <= self.lat_w * self.lat_w * self.vh) by (nonlinear_arith)
                requires
                    1 <= self.lat_w,
                    1 <= self.vh,
            ;
            assert(self.vh <= self.lat_w * self.lat_w * self.vh) by (nonlinear_arith)
                requires
                    1 <= self.lat_w,
                    1 <= self.vh,
            ;
        }
        let shape = ParticleShape::new(
            x as u32,
            y as u32,
            z as u32,
            self.lat_w as u32,
            self.vh as u32,
        );
        self.locations.push(Loc { x, y, z });
        self.ib_data.push(shape);
        proof {
            let post = *self;
            let pre = *old(self);
            let n = pre.locations@.len() as int;
            assert forall|i: int| 0 <= i < post.locations@.len() implies post.particle_ok(i) by {
                if i < n {
                    assert(pre.particle_ok(i));
                    assert(post.locations@[i] == pre.locations@[i]);
                    assert(post.ib_data@[i] == pre.ib_data@[i]);
                } else {
                    assert(post.locations@[i] == (Loc { x, y, z }));
                }
            }
            assert forall|i: int, j: int|
                0 <= i < j < post.locations@.len() implies #[trigger] post.locations@[i]
                != #[trigger] post.locations@[j] by {
                if j < n {
                    assert(pre.locations@[i] != pre.locations@[j]);
                } else {
                    assert(pre.loc(i) != (Loc { x, y, z }));
                }
            }
        }
    }

    /// Raise the fill level by one (clamped to `height - 2`) and fill every
    /// empty cell of the new level with a still water particle.
    pub fn increase_water_level(&mut self)
        requires
            old(self).wf(),
        ensures
            final(self).wf(),
            final(self).keeps_dims(*old(self)),
            final(self).level() == (if old(self).level() + 1 <= old(self).height() - 2 {
                old(self).level() + 1
            } else {
                old(self).height() - 2
            }),
            forall|zz: int, xx: int, yy: int|
                0 <= zz < old(self).side() && 0 <= xx < old(self).side() && 0 <= yy < old(self).height() && yy != final(self).level() ==> #[trigger] final(self).voxel(zz, xx, yy) == old(self).voxel(zz, xx, yy),
            forall|zz: int, xx: int|
                0 <= zz < old(self).side() && 0 <= xx < old(self).side()
                    ==> #[trigger] final(self).voxel(zz, xx, final(self).level()) == (
                    if old(self).voxel(zz, xx, final(self).level()) is Empty {
                        Voxel::Water(Direction::East, 0)
                    } else {
                        old(self).voxel(zz, xx, final(self).level())
                    }),
            final(self).particles_preserved(*old(self), old(self).active()),
            final(self).active() == old(self).active() + empty_at_level(
                *old(self),
                final(self).level(),
                old(self).side(),
            ),
            forall|i: int|
                old(self).active() <= i < final(self).active() ==> (#[trigger] final(self).loc(
                    i,
                )).y == final(self).level(),
            forall|i: int|
                old(self).active() <= i < final(self).active() ==> old(self).voxel(
                    (#[trigger] final(self).loc(i)).z as int,
                    final(self).loc(i).x as int,
                    final(self).loc(i).y as int,
                ) is Empty,
            forall|zz: int, xx: int|
                0 <= zz < old(self).side() && 0 <= xx < old(self).side() && old(self).voxel(
                    zz,
                    xx,
                    final(self).level(),
                ) is Empty ==> exists|i: int|
                    old(self).active() <= i < final(self).active() && #[trigger] final(self).loc(
                        i,
                    ) == (Loc {
                        x: xx as usize,
                        y: final(self).level() as usize,
                        z: zz as usize,
                    }),
    {
        let new_level = if self.water_level + 1 <= self.vh - 2 {
            self.water_level + 1
        } else {
            self.vh - 2
        };
        self.water_level = new_level;
        proof {
            assert forall|i: int|
                0 <= i < self.locations@.len() implies self.particle_ok(i) by {
                assert(old(self).particle_ok(i));
            }
        }
        let ghost midl = *self;
        self.fill_water_level(new_level);
        proof {
            lemma_empty_level_congruent(midl, *old(self), new_level as int, midl.side());
            assert forall|i: int|
                old(self).active() <= i < self.active() implies old(self).voxel(
                (#[trigger] self.loc(i)).z as int,
                self.loc(i).x as int,
                self.loc(i).y as int,
            ) is Empty by {
                assert(midl.voxel(
                    self.loc(i).z as int,
                    self.loc(i).x as int,
                    self.loc(i).y as int,
                ) is Empty);
            }
            assert forall|zz: int, xx: int|
                0 <= zz < old(self).side() && 0 <= xx < old(self).side() && old(self).voxel(
                    zz,
                    xx,
                    new_level as int,
                ) is Empty implies exists|i: int|
                    old(self).active() <= i < self.active() && #[trigger] self.loc(i) == (Loc {
                        x: xx as usize,
                        y: new_level,
                        z: zz as usize,
                    }) by {
                assert(midl.voxel(zz, xx, new_level as int) is Empty);
                let k = choose|k: int|
                    midl.active() <= k < self.active() && #[trigger] self.loc(k) == (Loc {
                        x: xx as usize,
                        y: new_level,
                        z: zz as usize,
                    });
                assert(old(self).active() <= k < self.active() && self.loc(k) == (Loc {
                    x: xx as usize,
                    y: new_level,
                    z: zz as usize,
                }));
            }
        }
    }

    /// For every column whose cell at `level` is empty, convert it to
    /// still water and append an active particle for exactly that cell;
    /// occupied cells are untouched.
    fn fill_water_level(&mut self, level: usize)
        requires
            old(self).wf(),
            level < old(self).height(),
        ensures
            final(self).wf(),
            final(self).keeps_dims(*old(self)),
            final(self).level() == old(self).level(),
            forall|zz: int, xx: int, yy: int|
                0 <= zz < old(self).side() && 0 <= xx < old(self).side() && 0 <= yy < old(self).height() && yy != level ==> #[trigger] final(self).voxel(zz, xx, yy) == old(self).voxel(zz, xx, yy),
            forall|zz: int, xx: int|
                0 <= zz < old(self).side() && 0 <= xx < old(self).side()
                    ==> #[trigger] final(self).voxel(zz, xx, level as int) == (
                    if old(self).voxel(zz, xx, level as int) is Empty {
                        Voxel::Water(Direction::East, 0)
                    } else {
                        old(self).voxel(zz, xx, level as int)
                    }),
            final(self).particles_preserved(*old(self), old(self).active()),
            final(self).active() == old(self).active() + empty_at_level(
                *old(self),
                level as int,
                old(self).side(),
            ),
            forall|i: int|
                old(self).active() <= i < final(self).active() ==> (#[trigger] final(self).loc(
                    i,
                )).y == level,
            forall|i: int|
                old(self).active() <= i < final(self).active() ==> old(self).voxel(
                    (#[trigger] final(self).loc(i)).z as int,
                    final(self).loc(i).x as int,
                    final(self).loc(i).y as int,
                ) is Empty,
            forall|zz: int, xx: int|
                0 <= zz < old(self).side() && 0 <= xx < old(self).side() && old(self).voxel(
                    zz,
                    xx,
                    level as int,
                ) is Empty ==> exists|i: int|
                    old(self).active() <= i < final(self).active() && #[trigger] final(self).loc(
                        i,
                    ) == (Loc { x: xx as usize, y: level, z: zz as usize }),
    {
        let vw = self.vw;
        let ghost pre = *self;
        let mut z: usize = 0;
        while z < vw
            invariant
                self.wf(),
                self.keeps_dims(pre),
                vw == self.vw,
                level < self.vh,
                z <= vw,
                self.level() == pre.level(),
                pre.wf(),
                pre.side() == vw,
                forall|zz: int, xx: int, yy: int|
                    0 <= zz < vw && 0 <= xx < vw && 0 <= yy < self.vh && yy != level
                        ==> #[trigger] self.voxel(zz, xx, yy) == pre.voxel(zz, xx, yy),
                forall|zz: int, xx: int|
                    0 <= zz < z && 0 <= xx < vw ==> #[trigger] self.voxel(zz, xx, level as int)
                        == (if pre.voxel(zz, xx, level as int) is Empty {
                        Voxel::Water(Direction::East, 0)
                    } else {
                        pre.voxel(zz, xx, level as int)
                    }),
                forall|zz: int, xx: int|
                    z <= zz < vw && 0 <= xx < vw ==> #[trigger] self.voxel(zz, xx, level as int)
                        == pre.voxel(zz, xx, level as int),
                self.particles_preserved(pre, pre.active()),
                pre.active() <= self.active(),
                self.active() == pre.active() + empty_at_level(pre, level as int, z as int),
                forall|i: int|
                    pre.active() <= i < self.active() ==> (#[trigger] self.loc(i)).y == level,
                forall|i: int|
                    pre.active() <= i < self.active() ==> pre.voxel(
                        (#[trigger] self.loc(i)).z as int,
                        self.loc(i).x as int,
                        self.loc(i).y as int,
                    ) is Empty,
                forall|zz: int, xx: int|
                    0 <= zz < z && 0 <= xx < vw && pre.voxel(zz, xx, level as int) is Empty
                        ==> exists|i: int|
                        pre.active() <= i < self.active() && #[trigger] self.loc(i) == (Loc {
                            x: xx as usize,
                            y: level,
                            z: zz as usize,
                        }),
            decreases vw - z,
        {
            let mut x: usize = 0;
            while x < vw
                invariant
                    self.wf(),
                    self.keeps_dims(pre),
                    vw == self.vw,
                    level < self.vh,
                    z < vw,
                    x <= vw,
                    self.level() == pre.level(),
                    pre.wf(),
                    pre.side() == vw,
                    forall|zz: int, xx: int, yy: int|
                        0 <= zz < vw && 0 <= xx < vw && 0 <= yy < self.vh && yy != level
                            ==> #[trigger] self.voxel(zz, xx, yy) == pre.voxel(zz, xx, yy),
                    forall|zz: int, xx: int|
                        0 <= zz < z && 0 <= xx < vw ==> #[trigger] self.voxel(zz, xx, level as int)
                            == (if pre.voxel(zz, xx, level as int) is Empty {
                            Voxel::Water(Direction::East, 0)
                        } else {
                            pre.voxel(zz, xx, level as int)
                        }),
                    forall|xx: int|
                        0 <= xx < x ==> #[trigger] self.voxel(z as int, xx, level as int) == (
                        if pre.voxel(z as int, xx, level as int) is Empty {
                            Voxel::Water(Direction::East, 0)
                        } else {
                            pre.voxel(z as int, xx, level as int)
                        }),
                    forall|xx: int|
                        x <= xx < vw ==> #[trigger] self.voxel(z as int, xx, level as int)
                            == pre.voxel(z as int, xx, level as int),
                    forall|zz: int, xx: int|
                        z < zz < vw && 0 <= xx < vw ==> #[trigger] self.voxel(
                            zz,
                            xx,
                            level as int,
                        ) == pre.voxel(zz, xx, level as int),
                    self.particles_preserved(pre, pre.active()),
                    pre.active() <= self.active(),
                    self.active() == pre.active() + empty_at_level(pre, level as int, z as int)
                        + empty_in_row(pre, level as int, z as int, x as int),
                    forall|i: int|
                        pre.active() <= i < self.active() ==> (#[trigger] self.loc(i)).y == level,
                    forall|i: int|
                        pre.active() <= i < self.active() ==> pre.voxel(
                            (#[trigger] self.loc(i)).z as int,
                            self.loc(i).x as int,
                            self.loc(i).y as int,
                        ) is Empty,
                    forall|zz: int, xx: int|
                        0 <= zz < z && 0 <= xx < vw && pre.voxel(zz, xx, level as int) is Empty
                            ==> exists|i: int|
                            pre.active() <= i < self.active() && #[trigger] self.loc(i) == (Loc {
                                x: xx as usize,
                                y: level,
                                z: zz as usize,
                            }),
                    forall|xx: int|
                        0 <= xx < x && pre.voxel(z as int, xx, level as int) is Empty
                            ==> exists|i: int|
                            pre.active() <= i < self.active() && #[trigger] self.loc(i) == (Loc {
                                x: xx as usize,
                                y: level,
                                z: z as usize,
                            }),
                decreases vw - x,
            {
                let is_empty = match self.grid[z][x][level] {
                    Voxel::Empty => true,
                    _ => false,
                };
                proof {
                    assert(self.voxel(z as int, x as int, level as int) == pre.voxel(
                        z as int,
                        x as int,
                        level as int,
                    ));
                }
                if is_empty {
                    let ghost mid = *self;
                    self.set_voxel(z, x, level, Voxel::Water(Direction::East, 0));
                    proof {
                        lemma_particles_keep_ok(mid, *self, z as int, x as int, level as int);
                    }
                    let ghost m2 = *self;
                    self.push_particle(x, level, z);
                    proof {
                        assert forall|i: int|
                            0 <= i < pre.active() implies #[trigger] self.loc(i) == pre.loc(i) by {
                            assert(self.loc(i) == m2.loc(i));
                            assert(m2.loc(i) == mid.loc(i));
                            assert(mid.loc(i) == pre.loc(i));
                        }
                        assert forall|i: int|
                            0 <= i < pre.active() implies #[trigger] self.shape(i) == pre.shape(
                            i,
                        ) by {
                            assert(self.shape(i) == m2.shape(i));
                            assert(m2.shape(i) == mid.shape(i));
                            assert(mid.shape(i) == pre.shape(i));
                        }
                        assert(self.loc(m2.active()) == (Loc { x, y: level, z }));
                        assert forall|i: int|
                            pre.active() <= i < self.active() implies (#[trigger] self.loc(i)).y
                            == level by {
                            if i < m2.active() {
                                assert(self.loc(i) == m2.loc(i));
                                assert(m2.loc(i) == mid.loc(i));
                                assert(mid.loc(i).y == level);
                            } else {
                                assert(self.loc(i) == (Loc { x, y: level, z }));
                            }
                        }
                        assert forall|i: int|
                            pre.active() <= i < self.active() implies pre.voxel(
                            (#[trigger] self.loc(i)).z as int,
                            self.loc(i).x as int,
                            self.loc(i).y as int,
                        ) is Empty by {
                            if i < m2.active() {
                                assert(self.loc(i) == m2.loc(i));
                                assert(m2.loc(i) == mid.loc(i));
                            } else {
                                assert(self.loc(i) == (Loc { x, y: level, z }));
                            }
                        }
                        assert forall|zz: int, xx: int|
                            0 <= zz < z && 0 <= xx < vw && pre.voxel(zz, xx, level as int) is Empty
                            implies exists|i: int|
                                pre.active() <= i < self.active() && #[trigger] self.loc(i) == (Loc {
                                    x: xx as usize,
                                    y: level,
                                    z: zz as usize,
                                }) by {
                            let k = choose|k: int|
                                pre.active() <= k < mid.active() && #[trigger] mid.loc(k) == (Loc {
                                    x: xx as usize,
                                    y: level,
                                    z: zz as usize,
                                });
                            assert(self.loc(k) == m2.loc(k));
                            assert(m2.loc(k) == mid.loc(k));
                        }
                        assert forall|xx: int|
                            0 <= xx < x + 1 && pre.voxel(z as int, xx, level as int) is Empty
                            implies exists|i: int|
                                pre.active() <= i < self.active() && #[trigger] self.loc(i) == (Loc {
                                    x: xx as usize,
                                    y: level,
                                    z: z as usize,
                                }) by {
                            if xx == x {
                                assert(self.loc(m2.active()) == (Loc {
                                    x: xx as usize,
                                    y: level,
                                    z: z as usize,
                                }));
                            } else {
                                let k = choose|k: int|
                                    pre.active() <= k < mid.active() && #[trigger] mid.loc(k) == (
                                    Loc { x: xx as usize, y: level, z: z as usize });
                                assert(self.loc(k) == m2.loc(k));
                                assert(m2.loc(k) == mid.loc(k));
                            }
                        }
                    }
                }
                x = x + 1;
            }
            z = z + 1;
        }
        proof {
            assert forall|zz: int, xx: int|
                0 <= zz < vw && 0 <= xx < vw && pre.voxel(zz, xx, level as int) is Empty
                implies exists|i: int|
                    pre.active() <= i < self.active() && #[trigger] self.loc(i) == (Loc {
                        x: xx as usize,
                        y: level,
                        z: zz as usize,
                    }) by {}
        }
    }

    /// True when the voxel is `Empty`.
    fn is_empty_voxel(v: Voxel) -> (b: bool)
        ensures
            b == (v is Empty),
    {
        match v {
            Voxel::Empty => true,
            _ => false,
        }
    }

    /// Move particle `i` to the adjacent empty cell `(nx, ny, nz)`: the old
    /// cell drains, the target becomes `Water(d, e)`, and the quad is
    /// translated by the matching per-direction delta.
    fn move_particle(&mut self, i: usize, nz: usize, nx: usize, ny: usize, d: Direction, e: i32)
        requires
            old(self).wf(),
            i < old(self).active(),
            nz < old(self).side(),
            nx < old(self).side(),
            ny < old(self).height(),
            old(self).voxel(nz as int, nx as int, ny as int) is Empty,
            ({
                let l = old(self).loc(i as int);
                ||| (nz == l.z && nx == l.x && ny + 1 == l.y)
                ||| (nz + 1 == l.z && nx == l.x && ny == l.y)
                ||| (nz == l.z + 1 && nx == l.x && ny == l.y)
                ||| (nz == l.z && nx + 1 == l.x && ny == l.y)
                ||| (nz == l.z && nx == l.x + 1 && ny == l.y)
            }),
        ensures
            final(self).wf(),
            final(self).keeps_dims(*old(self)),
            final(self).level() == old(self).level(),
            final(self).active() == old(self).active(),
            forall|j: int|
                0 <= j < old(self).active() && j != i ==> #[trigger] final(self).loc(j) == old(self).loc(j),
            forall|j: int|
                0 <= j < old(self).active() && j != i ==> #[trigger] final(self).shape(j) == old(self).shape(j),
            final(self).loc(i as int) == (Loc { x: nx, y: ny, z: nz }),
            final(self).voxel(
                old(self).loc(i as int).z as int,
                old(self).loc(i as int).x as int,
                old(self).loc(i as int).y as int,
            ) is Empty,
            final(self).voxel(nz as int, nx as int, ny as int) == Voxel::Water(d, e),
            forall|zz: int, xx: int, yy: int|
                0 <= zz < old(self).side() && 0 <= xx < old(self).side() && 0 <= yy < old(self).height() && !(zz == old(self).loc(i as int).z && xx == old(self).loc(i as int).x
                    && yy == old(self).loc(i as int).y) && !(zz == nz && xx == nx && yy == ny)
                    ==> #[trigger] final(self).voxel(zz, xx, yy) == old(self).voxel(zz, xx, yy),
            final(self).rng == old(self).rng,
            water_count(*final(self), final(self).side()) == water_count(
                *old(self),
                old(self).side(),
            ),
    {
        let l = self.locations[i];
        let ghost w = self.lat_w as int;
        let ghost h = self.vh as int;
        proof {
            assert(old(self).particle_ok(i as int));
            assert(!(nz == l.z && nx == l.x && ny == l.y));
            assert(w <= w * w * h) by (nonlinear_arith)
                requires
                    1 <= w,
                    1 <= h,
            ;
            assert(h <= w * w * h) by (nonlinear_arith)
                requires
                    1 <= w,
                    1 <= h,
            ;
            assert(w * h <= w * w * h) by (nonlinear_arith)
                requires
                    1 <= w,
                    1 <= h,
            ;
        }
        self.set_voxel(l.z, l.x, l.y, Voxel::Empty);
        let ghost m1 = *self;
        self.set_voxel(nz, nx, ny, Voxel::Water(d, e));
        let ghost m2 = *self;
        self.locations[i] = Loc { x: nx, y: ny, z: nz };
        proof {
            crate::particle_shape::lemma_shape_move_room(
                self.ib_data@[i as int],
                l.x as int,
                l.y as int,
                l.z as int,
                w,
                h,
            );
            assert(self.lat_w as u32 as int == w);
            assert(self.vh as u32 as int == h);
        }
        let mut s = self.ib_data[i];
        let ghost s_pre = s;
        if ny + 1 == l.y {
            s.move_down();
            proof {
                assert(0 * w * h + 0 * h + (-1) == -1) by (nonlinear_arith);
                lemma_shape_move(s_pre, s, l.x as int, l.y as int, l.z as int, 0, -1, 0, w, h);
            }
        } else if nz + 1 == l.z {
            s.move_north(self.lat_w as u32, self.vh as u32);
            proof {
                assert((-1) * w * h + 0 * h + 0 == -(w * h)) by (nonlinear_arith);
                lemma_shape_move(s_pre, s, l.x as int, l.y as int, l.z as int, 0, 0, -1, w, h);
            }
        } else if nz == l.z + 1 {
            s.move_south(self.lat_w as u32, self.vh as u32);
            proof {
                assert(1 * w * h + 0 * h + 0 == w * h) by (nonlinear_arith);
                lemma_shape_move(s_pre, s, l.x as int, l.y as int, l.z as int, 0, 0, 1, w, h);
            }
        } else if nx + 1 == l.x {
            s.move_west(self.vh as u32);
            proof {
                assert(0 * w * h + (-1) * h + 0 == -h) by (nonlinear_arith);
                lemma_shape_move(s_pre, s, l.x as int, l.y as int, l.z as int, -1, 0, 0, w, h);
            }
        } else {
            s.move_east(self.vh as u32);
            proof {
                assert(0 * w * h + 1 * h + 0 == h) by (nonlinear_arith);
                lemma_shape_move(s_pre, s, l.x as int, l.y as int, l.z as int, 1, 0, 0, w, h);
            }
        }
        self.ib_data[i] = s;
        proof {
            let post = *self;
            let pre = *old(self);
            assert(shape_matches(s, nx as int, ny as int, nz as int, w, h));
            assert(post.voxel(l.z as int, l.x as int, l.y as int) == m2.voxel(
                l.z as int,
                l.x as int,
                l.y as int,
            ));
            assert(m2.voxel(l.z as int, l.x as int, l.y as int) == m1.voxel(
                l.z as int,
                l.x as int,
                l.y as int,
            ));
            assert forall|zz: int, xx: int, yy: int|
                0 <= zz < pre.side() && 0 <= xx < pre.side() && 0 <= yy < pre.height() && !(zz
                == l.z && xx == l.x && yy == l.y) && !(zz == nz && xx == nx && yy == ny)
                implies #[trigger] post.voxel(zz, xx, yy) == pre.voxel(zz, xx, yy) by {
                assert(post.voxel(zz, xx, yy) == m2.voxel(zz, xx, yy));
                assert(m2.voxel(zz, xx, yy) == m1.voxel(zz, xx, yy));
                assert(m1.voxel(zz, xx, yy) == pre.voxel(zz, xx, yy));
            }
            assert(m1.voxel(nz as int, nx as int, ny as int) == pre.voxel(
                nz as int,
                nx as int,
                ny as int,
            ));
            assert forall|zz: int, xx: int, yy: int|
                0 <= zz < m2.side() && 0 <= xx < m2.side() && 0 <= yy < m2.height()
                implies #[trigger] m2.voxel(zz, xx, yy) == post.voxel(zz, xx, yy) by {}
            lemma_water_count_congruent(m2, post, m2.side());
            assert forall|j: int| 0 <= j < post.locations@.len() implies post.particle_ok(j) by {
                assert(pre.particle_ok(j));
                if j != i {
                    let lj = pre.locations@[j];
                    assert(pre.voxel(lj.z as int, lj.x as int, lj.y as int) is Water);
                    if lj == l {
                        assert(pre.locations@[j] != pre.locations@[i as int] || j == i);
                        assert(false);
                    }
                    if lj.z == nz && lj.x == nx && lj.y == ny {
                        assert(pre.voxel(nz as int, nx as int, ny as int) is Water);
                        assert(false);
                    }
                    assert(post.voxel(lj.z as int, lj.x as int, lj.y as int) == pre.voxel(
                        lj.z as int,
                        lj.x as int,
                        lj.y as int,
                    ));
                }
            }
            assert forall|a: int, b: int|
                0 <= a < b < post.locations@.len() implies #[trigger] post.locations@[a]
                != #[trigger] post.locations@[b] by {
                if a != i && b != i {
                    assert(pre.locations@[a] != pre.locations@[b]);
                } else {
                    let other: int = if a == i { b } else { a };
                    assert(pre.particle_ok(other));
                    let lo = pre.locations@[other];
                    assert(pre.voxel(lo.z as int, lo.x as int, lo.y as int) is Water);
                    if lo == (Loc { x: nx, y: ny, z: nz }) {
                        assert(pre.voxel(nz as int, nx as int, ny as int) is Water);
                    }
                }
            }
        }
    }

    /// Try the two alternate moves on the x axis (cost `lateral_cost`),
    /// west first or east first as the coin decides.
    fn try_side_moves_x(&mut self, i: usize, west_first: bool, d: Direction, e: i32)
        requires
            old(self).wf(),
            i < old(self).active(),
            0 < e,
        ensures
            final(self).wf(),
            final(self).keeps_dims(*old(self)),
            final(self).level() == old(self).level(),
            final(self).active() == old(self).active(),
            forall|j: int|
                0 <= j < old(self).active() && j != i ==> #[trigger] final(self).loc(j) == old(self).loc(j),
            forall|j: int|
                0 <= j < old(self).active() && j != i ==> #[trigger] final(self).shape(j) == old(self).shape(j),
            water_count(*final(self), final(self).side()) == water_count(
                *old(self),
                old(self).side(),
            ),
            *final(self) == *old(self) || ({
                let l = old(self).loc(i as int);
                let nl = final(self).loc(i as int);
                &&& nl != l
                &&& nl.y == l.y
                &&& old(self).voxel(nl.z as int, nl.x as int, nl.y as int) is Empty
                &&& final(self).voxel(nl.z as int, nl.x as int, nl.y as int) == Voxel::Water(
                    d,
                    (e - old(self).config().lateral_cost) as i32,
                )
                &&& final(self).voxel(l.z as int, l.x as int, l.y as int) is Empty
                &&& forall|zz: int, xx: int, yy: int|
                    0 <= zz < old(self).side() && 0 <= xx < old(self).side() && 0 <= yy < old(self).height() && !(zz == l.z && xx == l.x && yy == l.y) && !(zz == nl.z && xx
                        == nl.x && yy == nl.y) ==> #[trigger] final(self).voxel(zz, xx, yy)
                        == old(self).voxel(zz, xx, yy)
            }),
    {
        let l = self.locations[i];
        proof {
            assert(self.particle_ok(i as int));
        }
        let e2 = e - self.cfg.lateral_cost;
        if west_first {
            if l.x > 0 {
                if Self::is_empty_voxel(self.grid[l.z][l.x - 1][l.y]) {
                    self.move_particle(i, l.z, l.x - 1, l.y, d, e2);
                    return ;
                }
            }
            if l.x < self.vw - 1 {
                if Self::is_empty_voxel(self.grid[l.z][l.x + 1][l.y]) {
                    self.move_particle(i, l.z, l.x + 1, l.y, d, e2);
                    return ;
                }
            }
        } else {
            if l.x < self.vw - 1 {
                if Self::is_empty_voxel(self.grid[l.z][l.x + 1][l.y]) {
                    self.move_particle(i, l.z, l.x + 1, l.y, d, e2);
                    return ;
                }
            }
            if l.x > 0 {
                if Self::is_empty_voxel(self.grid[l.z][l.x - 1][l.y]) {
                    self.move_particle(i, l.z, l.x - 1, l.y, d, e2);
                    return ;
                }
            }
        }
    }

    /// Try the two alternate moves on the z axis (cost `lateral_cost`),
    /// north first or south first as the coin decides.
    fn try_side_moves_z(&mut self, i: usize, north_first: bool, d: Direction, e: i32)
        requires
            old(self).wf(),
            i < old(self).active(),
            0 < e,
        ensures
            final(self).wf(),
            final(self).keeps_dims(*old(self)),
            final(self).level() == old(self).level(),
            final(self).active() == old(self).active(),
            forall|j: int|
                0 <= j < old(self).active() && j != i ==> #[trigger] final(self).loc(j) == old(self).loc(j),
            forall|j: int|
                0 <= j < old(self).active() && j != i ==> #[trigger] final(self).shape(j) == old(self).shape(j),
            water_count(*final(self), final(self).side()) == water_count(
                *old(self),
                old(self).side(),
            ),
            *final(self) == *old(self) || ({
                let l = old(self).loc(i as int);
                let nl = final(self).loc(i as int);
                &&& nl != l
                &&& nl.y == l.y
                &&& old(self).voxel(nl.z as int, nl.x as int, nl.y as int) is Empty
                &&& final(self).voxel(nl.z as int, nl.x as int, nl.y as int) == Voxel::Water(
                    d,
                    (e - old(self).config().lateral_cost) as i32,
                )
                &&& final(self).voxel(l.z as int, l.x as int, l.y as int) is Empty
                &&& forall|zz: int, xx: int, yy: int|
                    0 <= zz < old(self).side() && 0 <= xx < old(self).side() && 0 <= yy < old(self).height() && !(zz == l.z && xx == l.x && yy == l.y) && !(zz == nl.z && xx
                        == nl.x && yy == nl.y) ==> #[trigger] final(self).voxel(zz, xx, yy)
                        == old(self).voxel(zz, xx, yy)
            }),
    {
        let l = self.locations[i];
        proof {
            assert(self.particle_ok(i as int));
        }
        let e2 = e - self.cfg.lateral_cost;
        if north_first {
            if l.z > 0 {
                if Self::is_empty_voxel(self.grid[l.z - 1][l.x][l.y]) {
                    self.move_particle(i, l.z - 1, l.x, l.y, d, e2);
                    return ;
                }
            }
            if l.z < self.vw - 1 {
                if Self::is_empty_voxel(self.grid[l.z + 1][l.x][l.y]) {
                    self.move_particle(i, l.z + 1, l.x, l.y, d, e2);
                    return ;
                }
            }
        } else {
            if l.z < self.vw - 1 {
                if Self::is_empty_voxel(self.grid[l.z + 1][l.x][l.y]) {
                    self.move_particle(i, l.z + 1, l.x, l.y, d, e2);
                    return ;
                }
            }
            if l.z > 0 {
                if Self::is_empty_voxel(self.grid[l.z - 1][l.x][l.y]) {
                    self.move_particle(i, l.z - 1, l.x, l.y, d, e2);
                    return ;
                }
            }
        }
    }

    /// Advance one active particle by one tick; everything the step
    /// guarantees is gathered in `step_rel`.  Gravity has priority: a
    /// live particle with an empty cell below falls exactly one cell,
    /// gaining `gravity_force` energy, and no lateral logic runs that tick.
    /// A particle asleep below the water level, or out of energy, is left
    /// completely untouched.
    #[verifier::rlimit(100)]
    pub fn step_particle(&mut self, i: usize)
        requires
            old(self).wf(),
            i < old(self).active(),
        ensures
            step_rel(*old(self), *final(self), i as int),
    {
        let l = self.locations[i];
        proof {
            assert(self.particle_ok(i as int));
        }
        let x = l.x;
        let y = l.y;
        let z = l.z;
        if y < self.water_level {
            return ;
        }
        let (cur_dir0, cur_energy) = match self.grid[z][x][y] {
            Voxel::Water(dd, ee) => (dd, ee),
            _ => (Direction::East, self.cfg.gravity_force),
        };
        if cur_energy <= 0 {
            return ;
        }
        let rb = rng_bool(&mut self.rng);
        let nd_a = Direction::rand(&mut self.rng);
        let nd_b = Direction::rand(&mut self.rng);
        proof {
            lemma_wf_rng_only(*old(self), *self);
            assert forall|zz: int, xx: int, yy: int|
                0 <= zz < old(self).side() && 0 <= xx < old(self).side() && 0 <= yy < old(self).height() implies #[trigger] old(self).voxel(zz, xx, yy) == self.voxel(
                zz,
                xx,
                yy,
            ) by {}
            lemma_water_count_congruent(*old(self), *self, old(self).side());
        }
        let mut cur_dir = cur_dir0;
        if y > 0 {
            let below = self.grid[z][x][y - 1];
            match below {
                Voxel::Empty => {
                    let ge = energy_add(cur_energy, self.cfg.gravity_force);
                    self.move_particle(i, z, x, y - 1, cur_dir, ge);
                    return ;
                },
                Voxel::Border(bd) => {
                    cur_dir = bd;
                    let ghost m = *self;
                    self.set_voxel(z, x, y, Voxel::Water(bd, cur_energy));
                    proof {
                        lemma_water_rewrite_ok(m, *self, z as int, x as int, y as int);
                    }
                },
                Voxel::Water(_, e2) => {
                    let ghost m = *self;
                    self.set_voxel(
                        z,
                        x,
                        y - 1,
                        Voxel::Water(nd_a, energy_add(e2, self.cfg.collision_gain)),
                    );
                    proof {
                        lemma_water_rewrite_ok(m, *self, z as int, x as int, y as int - 1);
                    }
                },
            }
        }
        let ghost after_below = *self;
        match cur_dir {
            Direction::North => {
                if z == 0 {
                    let ghost m = *self;
                    self.set_voxel(z, x, y, Voxel::Water(nd_b, cur_energy));
                    proof {
                        lemma_water_rewrite_ok(m, *self, z as int, x as int, y as int);
                    }
                } else if Self::is_empty_voxel(self.grid[z - 1][x][y]) {
                    let pe = cur_energy - self.cfg.primary_cost;
                    self.move_particle(i, z - 1, x, y, cur_dir, pe);
                } else if rb {
                    self.try_side_moves_x(i, true, cur_dir, cur_energy);
                } else {
                    self.try_side_moves_x(i, false, cur_dir, cur_energy);
                }
            },
            Direction::South => {
                if z >= self.vw - 1 {
                    let ghost m = *self;
                    self.set_voxel(z, x, y, Voxel::Water(nd_b, cur_energy));
                    proof {
                        lemma_water_rewrite_ok(m, *self, z as int, x as int, y as int);
                    }
                } else if Self::is_empty_voxel(self.grid[z + 1][x][y]) {
                    let pe = cur_energy - self.cfg.primary_cost;
                    self.move_particle(i, z + 1, x, y, cur_dir, pe);
                } else if rb {
                    self.try_side_moves_x(i, false, cur_dir, cur_energy);
                } else {
                    self.try_side_moves_x(i, true, cur_dir, cur_energy);
                }
            },
            Direction::East => {
                if x >= self.vw - 1 {
                    let ghost m = *self;
                    self.set_voxel(z, x, y, Voxel::Water(nd_b, cur_energy));
                    proof {
                        lemma_water_rewrite_ok(m, *self, z as int, x as int, y as int);
                    }
                } else if Self::is_empty_voxel(self.grid[z][x + 1][y]) {
                    let pe = cur_energy - self.cfg.primary_cost;
                    self.move_particle(i, z, x + 1, y, cur_dir, pe);
                } else if rb {
                    self.try_side_moves_z(i, false, cur_dir, cur_energy);
                } else {
                    self.try_side_moves_z(i, true, cur_dir, cur_energy);
                }
            },
            Direction::West => {
                if x == 0 {
                    let ghost m = *self;
                    self.set_voxel(z, x, y, Voxel::Water(nd_b, cur_energy));
                    proof {
                        lemma_water_rewrite_ok(m, *self, z as int, x as int, y as int);
                    }
                } else if Self::is_empty_voxel(self.grid[z][x - 1][y]) {
                    let pe = cur_energy - self.cfg.primary_cost;
                    self.move_particle(i, z, x - 1, y, cur_dir, pe);
                } else if rb {
                    self.try_side_moves_z(i, true, cur_dir, cur_energy);
                } else {
                    self.try_side_moves_z(i, false, cur_dir, cur_energy);
                }
            },
        }
        proof {
            let pre = *old(self);
            let pl = pre.loc(i as int);
            let below = pre.voxel(pl.z as int, pl.x as int, pl.y as int - 1);
            if pl.y > 0 && below is Border && !at_edge(spec_dir_of(below), pl, pre.side()) && {
                let nb = primary_loc(spec_dir_of(below), pl);
                pre.voxel(nb.z as int, nb.x as int, nb.y as int) is Empty
            } {
                let nb = primary_loc(spec_dir_of(below), pl);
                assert(after_below.loc(i as int) == pl);
                assert(after_below.voxel(nb.z as int, nb.x as int, nb.y as int) is Empty);
                assert forall|zz: int, xx: int, yy: int|
                    0 <= zz < pre.side() && 0 <= xx < pre.side() && 0 <= yy < pre.height() && !(zz
                    == pl.z && xx == pl.x && yy == pl.y) && !(zz == nb.z && xx == nb.x && yy
                    == nb.y) implies #[trigger] self.voxel(zz, xx, yy) == pre.voxel(
                    zz,
                    xx,
                    yy,
                ) by {
                    assert(after_below.loc(i as int) == pl);
                    assert(self.voxel(zz, xx, yy) == after_below.voxel(zz, xx, yy));
                    assert(after_below.voxel(zz, xx, yy) == pre.voxel(zz, xx, yy));
                }
            }
            if pl.y == 0 && !at_edge(
                spec_dir_of(pre.voxel(pl.z as int, pl.x as int, pl.y as int)),
                pl,
                pre.side(),
            ) && {
                let nb = primary_loc(spec_dir_of(pre.voxel(pl.z as int, pl.x as int, pl.y as int)), pl);
                pre.voxel(nb.z as int, nb.x as int, nb.y as int) is Empty
            } {
                let nb = primary_loc(spec_dir_of(pre.voxel(pl.z as int, pl.x as int, pl.y as int)), pl);
                assert(after_below.loc(i as int) == pl);
                assert(after_below.voxel(nb.z as int, nb.x as int, nb.y as int) is Empty);
                assert forall|zz: int, xx: int, yy: int|
                    0 <= zz < pre.side() && 0 <= xx < pre.side() && 0 <= yy < pre.height() && !(zz
                    == pl.z && xx == pl.x && yy == pl.y) && !(zz == nb.z && xx == nb.x && yy
                    == nb.y) implies #[trigger] self.voxel(zz, xx, yy) == pre.voxel(
                    zz,
                    xx,
                    yy,
                ) by {
                    assert(after_below.loc(i as int) == pl);
                    assert(self.voxel(zz, xx, yy) == after_below.voxel(zz, xx, yy));
                    assert(after_below.voxel(zz, xx, yy) == pre.voxel(zz, xx, yy));
                }
            }
        }
    }

    /// One full tick: sweep every active particle once in index order
    /// (`sweep_rel` chains one `step_rel` per particle), then run the
    /// level bookkeeping (`update_rel`).  The water level never moves
    /// down, never advances by more than one, never exceeds `height - 2`,
    /// and the sweep conserves the amount of water in the grid.
    pub fn modulate(&mut self)
        requires
            old(self).wf(),
        ensures
            final(self).wf(),
            final(self).keeps_dims(*old(self)),
            old(self).level() <= final(self).level() <= old(self).level() + 1,
            final(self).level() + 2 <= final(self).height(),
            final(self).active() <= old(self).active(),
            old(self).active() == 0 ==> final(self).active() == 0 && forall|zz: int, xx: int, yy: int|
                0 <= zz < old(self).side() && 0 <= xx < old(self).side() && 0 <= yy < old(self).height()
                    ==> #[trigger] final(self).voxel(zz, xx, yy) == old(self).voxel(zz, xx, yy),
            exists|mid: Water|
                sweep_rel(*old(self), mid, old(self).active()) && #[trigger] update_rel(
                    mid,
                    *final(self),
                ),
            water_count(*final(self), final(self).side()) == water_count(
                *old(self),
                old(self).side(),
            ),
    {
        let n = self.locations.len();
        let mut i: usize = 0;
        while i < n
            invariant
                self.wf(),
                self.keeps_dims(*old(self)),
                self.level() == old(self).level(),
                self.active() == n,
                i <= n,
                n == 0 ==> *self == *old(self),
                sweep_rel(*old(self), *self, i as int),
                water_count(*self, self.side()) == water_count(*old(self), old(self).side()),
            decreases n - i,
        {
            let ghost prev = *self;
            self.step_particle(i);
            proof {
                lemma_sweep_extend(*old(self), prev, *self, i as int);
            }
            i = i + 1;
        }
        let ghost swept = *self;
        self.update_water_level();
        proof {
            lemma_level_bounded(*self);
            lemma_modulate_witness(*old(self), swept, *self);
            assert forall|zz: int, xx: int, yy: int|
                0 <= zz < swept.side() && 0 <= xx < swept.side() && 0 <= yy < swept.height()
                implies #[trigger] swept.voxel(zz, xx, yy) == self.voxel(zz, xx, yy) by {}
            lemma_water_count_congruent(swept, *self, swept.side());
        }
    }

    /// If every column is occupied at the current level, advance it by one
    /// (clamped to `height - 2`); once past a small threshold, prune
    /// exactly the settled interior particles from the active list,
    /// keeping the survivors in order.
    fn update_water_level(&mut self)
        requires
            old(self).wf(),
        ensures
            update_rel(*old(self), *final(self)),
    {
        let cur = self.water_level;
        let vw = self.vw;
        let mut need_up = true;
        let ghost mut ew: (int, int) = (0, 0);
        let mut z: usize = 0;
        while z < vw
            invariant
                self.wf(),
                *self == *old(self),
                vw == self.vw,
                cur == self.water_level,
                z <= vw,
                need_up ==> forall|zz: int, xx: int|
                    0 <= zz < z && 0 <= xx < vw ==> !(#[trigger] self.voxel(
                        zz,
                        xx,
                        cur as int,
                    ) is Empty),
                !need_up ==> 0 <= ew.0 < vw && 0 <= ew.1 < vw && self.voxel(
                    ew.0,
                    ew.1,
                    cur as int,
                ) is Empty,
            decreases vw - z,
        {
            let mut x: usize = 0;
            while x < vw
                invariant
                    self.wf(),
                    *self == *old(self),
                    vw == self.vw,
                    cur == self.water_level,
                    z < vw,
                    x <= vw,
                    need_up ==> (forall|zz: int, xx: int|
                        0 <= zz < z && 0 <= xx < vw ==> !(#[trigger] self.voxel(
                            zz,
                            xx,
                            cur as int,
                        ) is Empty)) && (forall|xx: int|
                        0 <= xx < x ==> !(#[trigger] self.voxel(z as int, xx, cur as int) is Empty)),
                    !need_up ==> 0 <= ew.0 < vw && 0 <= ew.1 < vw && self.voxel(
                        ew.0,
                        ew.1,
                        cur as int,
                    ) is Empty,
                decreases vw - x,
            {
                if Self::is_empty_voxel(self.grid[z][x][cur]) {
                    need_up = false;
                    proof {
                        ew = (z as int, x as int);
                    }
                }
                x = x + 1;
            }
            z = z + 1;
        }
        proof {
            assert(need_up == level_full(*self, cur as int));
        }
        if !need_up {
            proof {
                assert forall|i: int|
                    0 <= i < self.active() implies #[trigger] self.came_from(*old(self), i) by {
                    lemma_came_from(*self, *old(self), i, i);
                }
                assert forall|i: int|
                    0 <= i < old(self).active() implies #[trigger] self.loc(i) == old(self).loc(
                    i,
                ) by {}
                assert forall|i: int|
                    0 <= i < old(self).active() implies #[trigger] self.shape(i) == old(self).shape(i) by {}
            }
            return ;
        }
        let new_level = if cur + 1 <= self.vh - 2 {
            cur + 1
        } else {
            self.vh - 2
        };
        self.water_level = new_level;
        proof {
            assert forall|i: int|
                0 <= i < self.locations@.len() implies self.particle_ok(i) by {
                assert(old(self).particle_ok(i));
            }
        }
        if new_level <= 3 {
            proof {
                assert forall|i: int|
                    0 <= i < self.active() implies #[trigger] self.came_from(*old(self), i) by {
                    lemma_came_from(*self, *old(self), i, i);
                }
                assert forall|i: int|
                    0 <= i < old(self).active() implies #[trigger] self.loc(i) == old(self).loc(
                    i,
                ) by {}
                assert forall|i: int|
                    0 <= i < old(self).active() implies #[trigger] self.shape(i) == old(self).shape(i) by {}
            }
            return ;
        }
        let ghost mid = *self;
        let mut new_locs: Vec<Loc> = Vec::new();
        let mut new_ib: Vec<ParticleShape> = Vec::new();
        let ghost mut src: Seq<int> = Seq::empty();
        proof {
            reveal_with_fuel(Seq::filter, 2);
            assert(mid.particles().take(0).filter(keep_pred(vw as int, new_level as int))
                =~= Seq::<(Loc, ParticleShape)>::empty());
            assert(Seq::new(0, |m: int| (new_locs@[m], new_ib@[m])) =~= Seq::<(
                Loc,
                ParticleShape,
            )>::empty());
        }
        let mut k: usize = 0;
        let n = self.locations.len();
        while k < n
            invariant
                self.wf(),
                *self == mid,
                n == self.locations@.len(),
                k <= n,
                new_level == self.water_level,
                3 < new_level,
                vw == self.vw,
                new_locs@.len() == new_ib@.len(),
                new_locs@.len() == src.len(),
                src.len() <= k,
                forall|m: int| 0 <= m < src.len() ==> 0 <= #[trigger] src[m] < k,
                forall|m: int|
                    0 <= m < src.len() ==> new_locs@[m] == self.locations@[#[trigger] src[m]]
                        && new_ib@[m] == self.ib_data@[src[m]],
                forall|m1: int, m2: int|
                    0 <= m1 < m2 < src.len() ==> #[trigger] src[m1] < #[trigger] src[m2],
                forall|m: int|
                    0 <= m < new_locs@.len() ==> keeps_particle(
                        #[trigger] new_locs@[m],
                        vw as int,
                        new_level as int,
                    ),
                forall|j: int|
                    0 <= j < k && keeps_particle(
                        #[trigger] mid.locations@[j],
                        vw as int,
                        new_level as int,
                    ) ==> src_has(src, j),
                Seq::new(new_locs@.len(), |m: int| (new_locs@[m], new_ib@[m]))
                    == mid.particles().take(k as int).filter(
                    keep_pred(vw as int, new_level as int),
                ),
            decreases n - k,
        {
            let lk = self.locations[k];
            let keep = !((lk.z > 0 && lk.z < vw - 1) && (lk.x > 0 && lk.x < vw - 1) && (lk.y
                < new_level - 1));
            proof {
                assert(keep == keeps_particle(lk, vw as int, new_level as int));
            }
            let ghost src0 = src;
            if keep {
                new_locs.push(lk);
                let sk = self.ib_data[k];
                new_ib.push(sk);
                proof {
                    src = src.push(k as int);
                }
            }
            proof {
                assert forall|j: int|
                    0 <= j < k + 1 && keeps_particle(
                        #[trigger] mid.locations@[j],
                        vw as int,
                        new_level as int,
                    ) implies src_has(src, j) by {
                    if j < k {
                        let m = choose|m: int| 0 <= m < src0.len() && #[trigger] src0[m] == j;
                        lemma_src_has(src, m);
                    } else {
                        lemma_src_has(src, src.len() - 1);
                    }
                }
                reveal_with_fuel(Seq::filter, 2);
                let pred = keep_pred(vw as int, new_level as int);
                let mp = mid.particles();
                assert(mp.take(k as int + 1).drop_last() =~= mp.take(k as int));
                assert(mp.take(k as int + 1).last() == mp[k as int]);
                assert(mp[k as int] == (mid.locations@[k as int], mid.ib_data@[k as int]));
                assert(pred(mp[k as int]) == keep);
                if keep {
                    assert(Seq::new(new_locs@.len(), |m: int| (new_locs@[m], new_ib@[m]))
                        =~= mp.take(k as int).filter(pred).push(mp[k as int]));
                } else {
                    assert(Seq::new(new_locs@.len(), |m: int| (new_locs@[m], new_ib@[m]))
                        =~= mp.take(k as int).filter(pred));
                }
                assert(Seq::new(new_locs@.len(), |m: int| (new_locs@[m], new_ib@[m])) == mp.take(
                    k as int + 1,
                ).filter(pred));
            }
            k = k + 1;
        }
        self.locations = new_locs;
        self.ib_data = new_ib;
        proof {
            assert forall|i: int| 0 <= i < self.locations@.len() implies self.particle_ok(i) by {
                assert(mid.particle_ok(src[i]));
                assert(self.locations@[i] == mid.locations@[src[i]]);
                assert(self.ib_data@[i] == mid.ib_data@[src[i]]);
            }
            assert forall|a: int, b: int|
                0 <= a < b < self.locations@.len() implies #[trigger] self.locations@[a]
                != #[trigger] self.locations@[b] by {
                assert(src[a] < src[b]);
                assert(mid.locations@[src[a]] != mid.locations@[src[b]]);
            }
            assert forall|i: int|
                0 <= i < self.active() implies #[trigger] self.came_from(*old(self), i) by {
                lemma_came_from(*self, *old(self), i, src[i]);
            }
            assert forall|j: int|
                0 <= j < old(self).active() && keeps_particle(
                    #[trigger] old(self).loc(j),
                    self.side(),
                    self.level(),
                ) implies self.survives(*old(self), j) by {
                assert(mid.locations@[j] == old(self).loc(j));
                assert(src_has(src, j));
                let m = choose|m: int| 0 <= m < src.len() && #[trigger] src[m] == j;
                assert(self.loc(m) == mid.locations@[src[m]]);
                lemma_survives(*self, *old(self), m, j);
            }
            assert(mid.particles().take(n as int) =~= mid.particles());
            assert(self.particles() =~= Seq::new(
                new_locs@.len(),
                |m: int| (new_locs@[m], new_ib@[m]),
            ));
            assert(mid.particles() =~= old(self).particles());
            assert(self.particles() == old(self).particles().filter(
                keep_pred(old(self).side(), self.level()),
            ));
        }
    }

    /// Fill the boundary slab facing `dir` with wave particles.  Every
    /// empty cell of the slab becomes `Water` flowing in the opposite
    /// direction with a large energy budget; occupied cells and the rest
    /// of the grid are untouched, and a particle is appended for exactly
    /// the converted cells.
    pub fn add_wave_particles(&mut self, dir: Direction)
        requires
            old(self).wf(),
        ensures
            final(self).wf(),
            final(self).keeps_dims(*old(self)),
            final(self).level() == old(self).level(),
            final(self).particles_preserved(*old(self), old(self).active()),
            old(self).active() <= final(self).active(),
            forall|zz: int, xx: int, yy: int|
                0 <= zz < old(self).side() && 0 <= xx < old(self).side() && 0 <= yy < old(self).height() ==> #[trigger] final(self).voxel(zz, xx, yy) == (
                if in_wave_slab(
                    dir,
                    zz,
                    xx,
                    yy,
                    old(self).side(),
                    old(self).config().spec_wave_y_hi(old(self).height()),
                ) && old(self).voxel(zz, xx, yy) is Empty {
                    Voxel::Water(
                        dir.spec_opposite(),
                        (old(self).lattice() * old(self).lattice()) as i32,
                    )
                } else {
                    old(self).voxel(zz, xx, yy)
                }),
            forall|i: int|
                old(self).active() <= i < final(self).active() ==> in_wave_slab(
                    dir,
                    (#[trigger] final(self).loc(i)).z as int,
                    final(self).loc(i).x as int,
                    final(self).loc(i).y as int,
                    old(self).side(),
                    old(self).config().spec_wave_y_hi(old(self).height()),
                ),
            final(self).active() == old(self).active() + wave_empty_upto(
                *old(self),
                dir,
                old(self).side(),
                old(self).config().spec_wave_y_hi(old(self).height()),
            ),
            forall|zz: int, xx: int, yy: int|
                0 <= zz < old(self).side() && 0 <= xx < old(self).side() && 0 <= yy < old(self).height() && in_wave_slab(
                    dir,
                    zz,
                    xx,
                    yy,
                    old(self).side(),
                    old(self).config().spec_wave_y_hi(old(self).height()),
                ) && old(self).voxel(zz, xx, yy) is Empty ==> exists|i: int|
                    old(self).active() <= i < final(self).active() && #[trigger] final(self).loc(
                        i,
                    ) == (Loc { x: xx as usize, y: yy as usize, z: zz as usize }),
    {
        let vw = self.vw;
        proof {
            assert(self.lat_w * self.lat_w * 3 <= self.lat_w * self.lat_w * self.vh)
                by (nonlinear_arith)
                requires
                    3 <= self.vh,
                    1 <= self.lat_w,
            ;
            vstd::arithmetic::div_mod::lemma_fundamental_div_mod(
                self.vh as int,
                self.cfg.wave_den as int,
            );
            assert((self.vh / self.cfg.wave_den) * self.cfg.wave_den <= self.vh);
            assert((self.vh / self.cfg.wave_den) * self.cfg.wave_num <= self.vh)
                by (nonlinear_arith)
                requires
                    1 <= self.cfg.wave_den,
                    self.cfg.wave_num <= self.cfg.wave_den,
                    (self.vh as int / self.cfg.wave_den as int) * self.cfg.wave_den as int
                        <= self.vh,
                    0 <= self.vh as int / self.cfg.wave_den as int,
            ;
        }
        let y_hi = self.vh / self.cfg.wave_den * self.cfg.wave_num;
        let energy: i32 = (self.lat_w * self.lat_w) as i32;
        let nd = dir.opposite();
        let ghost pre = *self;
        let mut a: usize = 0;
        while a < vw
            invariant
                self.wf(),
                pre.wf(),
                self.keeps_dims(pre),
                self.level() == pre.level(),
                self.particles_preserved(pre, pre.active()),
                pre.active() <= self.active(),
                vw == self.vw,
                y_hi == pre.config().spec_wave_y_hi(pre.height()),
                y_hi <= self.vh,
                pre.side() == vw,
                energy == (pre.lattice() * pre.lattice()) as i32,
                nd == dir.spec_opposite(),
                a <= vw,
                self.active() == pre.active() + wave_empty_upto(pre, dir, a as int, y_hi as int),
                forall|zz: int, xx: int, yy: int|
                    0 <= zz < vw && 0 <= xx < vw && 0 <= yy < self.vh
                        ==> #[trigger] self.voxel(zz, xx, yy) == (
                    if in_wave_slab(dir, zz, xx, yy, vw as int, y_hi as int) && slab_axis(
                        dir,
                        zz,
                        xx,
                    ) < a && pre.voxel(zz, xx, yy) is Empty {
                        Voxel::Water(nd, energy)
                    } else {
                        pre.voxel(zz, xx, yy)
                    }),
                forall|i: int|
                    pre.active() <= i < self.active() ==> in_wave_slab(
                        dir,
                        (#[trigger] self.loc(i)).z as int,
                        self.loc(i).x as int,
                        self.loc(i).y as int,
                        vw as int,
                        y_hi as int,
                    ),
                forall|zz: int, xx: int, yy: int|
                    0 <= zz < vw && 0 <= xx < vw && 0 <= yy < self.vh && in_wave_slab(
                        dir,
                        zz,
                        xx,
                        yy,
                        vw as int,
                        y_hi as int,
                    ) && slab_axis(dir, zz, xx) < a && pre.voxel(zz, xx, yy) is Empty
                        ==> exists|i: int|
                        pre.active() <= i < self.active() && #[trigger] self.loc(i) == (Loc {
                            x: xx as usize,
                            y: yy as usize,
                            z: zz as usize,
                        }),
            decreases vw - a,
        {
            let mut y: usize = 0;
            while y < y_hi
                invariant
                    self.wf(),
                    pre.wf(),
                    self.keeps_dims(pre),
                    self.level() == pre.level(),
                    self.particles_preserved(pre, pre.active()),
                    pre.active() <= self.active(),
                    vw == self.vw,
                    y_hi == pre.config().spec_wave_y_hi(pre.height()),
                    y_hi <= self.vh,
                    pre.side() == vw,
                    energy == (pre.lattice() * pre.lattice()) as i32,
                    nd == dir.spec_opposite(),
                    a < vw,
                    y <= y_hi,
                    self.active() == pre.active() + wave_empty_upto(pre, dir, a as int, y_hi as int)
                        + wave_empty_in_col(pre, dir, a as int, y as int),
                    forall|zz: int, xx: int, yy: int|
                        0 <= zz < vw && 0 <= xx < vw && 0 <= yy < self.vh
                            ==> #[trigger] self.voxel(zz, xx, yy) == (
                        if in_wave_slab(dir, zz, xx, yy, vw as int, y_hi as int) && (slab_axis(
                            dir,
                            zz,
                            xx,
                        ) < a || (slab_axis(dir, zz, xx) == a && yy < y)) && pre.voxel(
                            zz,
                            xx,
                            yy,
                        ) is Empty {
                            Voxel::Water(nd, energy)
                        } else {
                            pre.voxel(zz, xx, yy)
                        }),
                    forall|i: int|
                        pre.active() <= i < self.active() ==> in_wave_slab(
                            dir,
                            (#[trigger] self.loc(i)).z as int,
                            self.loc(i).x as int,
                            self.loc(i).y as int,
                            vw as int,
                            y_hi as int,
                        ),
                    forall|zz: int, xx: int, yy: int|
                        0 <= zz < vw && 0 <= xx < vw && 0 <= yy < self.vh && in_wave_slab(
                            dir,
                            zz,
                            xx,
                            yy,
                            vw as int,
                            y_hi as int,
                        ) && (slab_axis(dir, zz, xx) < a || (slab_axis(dir, zz, xx) == a && yy
                            < y)) && pre.voxel(zz, xx, yy) is Empty ==> exists|i: int|
                            pre.active() <= i < self.active() && #[trigger] self.loc(i) == (Loc {
                                x: xx as usize,
                                y: yy as usize,
                                z: zz as usize,
                            }),
                decreases y_hi - y,
            {
                let (cz, cx) = match dir {
                    Direction::South => (vw - 1, a),
                    Direction::North => (0, a),
                    Direction::East => (a, vw - 1),
                    Direction::West => (a, 0),
                };
                proof {
                    assert(in_wave_slab(dir, cz as int, cx as int, y as int, vw as int,
                        y_hi as int));
                    assert(slab_axis(dir, cz as int, cx as int) == a);
                    assert(slab_z(dir, a as int, vw as int) == cz as int);
                    assert(slab_x(dir, a as int, vw as int) == cx as int);
                }
                let is_empty = Self::is_empty_voxel(self.grid[cz][cx][y]);
                if !is_empty {
                    proof {
                        assert(self.voxel(cz as int, cx as int, y as int) == pre.voxel(
                            cz as int,
                            cx as int,
                            y as int,
                        ));
                        assert(!(pre.voxel(cz as int, cx as int, y as int) is Empty));
                        assert(wave_empty_in_col(pre, dir, a as int, y as int + 1)
                            == wave_empty_in_col(pre, dir, a as int, y as int));
                    }
                }
                if is_empty {
                    let ghost mid = *self;
                    self.set_voxel(cz, cx, y, Voxel::Water(nd, energy));
                    proof {
                        lemma_particles_keep_ok(mid, *self, cz as int, cx as int, y as int);
                    }
                    let ghost m2 = *self;
                    self.push_particle(cx, y, cz);
                    proof {
                        assert forall|i: int|
                            0 <= i < pre.active() implies #[trigger] self.loc(i) == pre.loc(i) by {
                            assert(self.loc(i) == m2.loc(i));
                            assert(m2.loc(i) == mid.loc(i));
                            assert(mid.loc(i) == pre.loc(i));
                        }
                        assert forall|i: int|
                            0 <= i < pre.active() implies #[trigger] self.shape(i) == pre.shape(
                            i,
                        ) by {
                            assert(self.shape(i) == m2.shape(i));
                            assert(m2.shape(i) == mid.shape(i));
                            assert(mid.shape(i) == pre.shape(i));
                        }
                        assert(self.loc(m2.active()) == (Loc { x: cx, y, z: cz }));
                        assert(wave_empty_in_col(pre, dir, a as int, y as int + 1)
                            == wave_empty_in_col(pre, dir, a as int, y as int) + 1);
                        assert forall|i: int|
                            pre.active() <= i < self.active() implies in_wave_slab(
                            dir,
                            (#[trigger] self.loc(i)).z as int,
                            self.loc(i).x as int,
                            self.loc(i).y as int,
                            vw as int,
                            y_hi as int,
                        ) by {
                            if i < m2.active() {
                                assert(self.loc(i) == m2.loc(i));
                                assert(m2.loc(i) == mid.loc(i));
                            }
                        }
                        assert forall|zz: int, xx: int, yy: int|
                            0 <= zz < vw && 0 <= xx < vw && 0 <= yy < self.vh && in_wave_slab(
                                dir,
                                zz,
                                xx,
                                yy,
                                vw as int,
                                y_hi as int,
                            ) && (slab_axis(dir, zz, xx) < a || (slab_axis(dir, zz, xx) == a && yy
                                < y + 1)) && pre.voxel(zz, xx, yy) is Empty implies exists|i: int|
                                pre.active() <= i < self.active() && #[trigger] self.loc(i) == (Loc {
                                    x: xx as usize,
                                    y: yy as usize,
                                    z: zz as usize,
                                }) by {
                            if zz == cz && xx == cx && yy == y {
                                assert(self.loc(m2.active()) == (Loc {
                                    x: xx as usize,
                                    y: yy as usize,
                                    z: zz as usize,
                                }));
                            } else {
                                let k = choose|k: int|
                                    pre.active() <= k < mid.active() && #[trigger] mid.loc(k) == (
                                    Loc { x: xx as usize, y: yy as usize, z: zz as usize });
                                assert(self.loc(k) == m2.loc(k));
                                assert(m2.loc(k) == mid.loc(k));
                            }
                        }
                    }
                }
                y = y + 1;
            }
            proof {
                assert(wave_empty_upto(pre, dir, a as int + 1, y_hi as int) == wave_empty_upto(
                    pre,
                    dir,
                    a as int,
                    y_hi as int,
                ) + wave_empty_in_col(pre, dir, a as int, y_hi as int));
            }
            a = a + 1;
        }
        proof {
            assert forall|zz: int, xx: int, yy: int|
                0 <= zz < vw && 0 <= xx < vw && 0 <= yy < self.vh implies #[trigger] self.voxel(
                zz,
                xx,
                yy,
            ) == (if in_wave_slab(dir, zz, xx, yy, vw as int, y_hi as int) && pre.voxel(
                zz,
                xx,
                yy,
            ) is Empty {
                Voxel::Water(nd, energy)
            } else {
                pre.voxel(zz, xx, yy)
            }) by {
                if in_wave_slab(dir, zz, xx, yy, vw as int, y_hi as int) {
                    assert(slab_axis(dir, zz, xx) < vw);
                }
            }
        }
    }

    /// Scatter a few rain particles on random columns near the top of the
    /// domain: each empty target cell becomes falling water with a random
    /// direction and full gravity energy.
    pub fn add_rain_particles(&mut self)
        requires
            old(self).wf(),
        ensures
            final(self).wf(),
            final(self).keeps_dims(*old(self)),
            final(self).level() == old(self).level(),
            final(self).particles_preserved(*old(self), old(self).active()),
            old(self).active() <= final(self).active(),
            final(self).active() <= old(self).active() + (old(self).lattice() * old(self).height())
                / 10000 + 1,
            forall|zz: int, xx: int, yy: int|
                0 <= zz < old(self).side() && 0 <= xx < old(self).side() && 0 <= yy < old(self).height() ==> #[trigger] final(self).voxel(zz, xx, yy) == old(self).voxel(
                    zz,
                    xx,
                    yy,
                ) || (yy == old(self).height() - 2 && old(self).voxel(zz, xx, yy) is Empty
                    && final(self).voxel(zz, xx, yy) is Water),
            forall|i: int|
                old(self).active() <= i < final(self).active() ==> (#[trigger] final(self).loc(
                    i,
                )).y == old(self).height() - 2,
            forall|i: int|
                old(self).active() <= i < final(self).active() ==> old(self).voxel(
                    (#[trigger] final(self).loc(i)).z as int,
                    final(self).loc(i).x as int,
                    final(self).loc(i).y as int,
                ) is Empty,
            forall|i: int|
                old(self).active() <= i < final(self).active() ==> spec_energy_of(
                    final(self).voxel(
                        (#[trigger] final(self).loc(i)).z as int,
                        final(self).loc(i).x as int,
                        final(self).loc(i).y as int,
                    ),
                ) == old(self).config().gravity_force,
            (forall|zz: int, xx: int|
                0 <= zz < old(self).side() && 0 <= xx < old(self).side() ==> #[trigger] old(self).voxel(zz, xx, old(self).height() - 2) is Empty) ==> old(self).active() < final(self).active(),
    {
        proof {
            assert(self.lat_w * self.vh <= self.lat_w * self.lat_w * self.vh) by (nonlinear_arith)
                requires
                    1 <= self.lat_w,
                    1 <= self.vh,
            ;
        }
        let drops = (self.lat_w * self.vh) / 10000 + 1;
        let ghost pre = *self;
        proof {
            assert forall|zz: int, xx: int|
                0 <= zz < pre.side() && 0 <= xx < pre.side() implies #[trigger] self.voxel(
                zz,
                xx,
                pre.height() - 2,
            ) == pre.voxel(zz, xx, pre.height() - 2) by {}
        }
        let mut n: usize = 0;
        while n < drops
            invariant
                self.wf(),
                pre.wf(),
                self.keeps_dims(pre),
                self.level() == pre.level(),
                self.particles_preserved(pre, pre.active()),
                pre.active() <= self.active(),
                self.active() <= pre.active() + n,
                n <= drops,
                drops == (pre.lattice() * pre.height()) / 10000 + 1,
                forall|zz: int, xx: int, yy: int|
                    0 <= zz < pre.side() && 0 <= xx < pre.side() && 0 <= yy < pre.height()
                        ==> #[trigger] self.voxel(zz, xx, yy) == pre.voxel(zz, xx, yy) || (yy
                        == pre.height() - 2 && pre.voxel(zz, xx, yy) is Empty && self.voxel(
                        zz,
                        xx,
                        yy,
                    ) is Water),
                forall|i: int|
                    pre.active() <= i < self.active() ==> (#[trigger] self.loc(i)).y
                        == pre.height() - 2,
                forall|i: int|
                    pre.active() <= i < self.active() ==> pre.voxel(
                        (#[trigger] self.loc(i)).z as int,
                        self.loc(i).x as int,
                        self.loc(i).y as int,
                    ) is Empty,
                forall|i: int|
                    pre.active() <= i < self.active() ==> spec_energy_of(
                        self.voxel(
                            (#[trigger] self.loc(i)).z as int,
                            self.loc(i).x as int,
                            self.loc(i).y as int,
                        ),
                    ) == pre.config().gravity_force,
                (forall|zz: int, xx: int|
                    0 <= zz < pre.side() && 0 <= xx < pre.side() ==> #[trigger] pre.voxel(
                        zz,
                        xx,
                        pre.height() - 2,
                    ) is Empty) ==> (pre.active() < self.active() || forall|zz: int, xx: int|
                    0 <= zz < pre.side() && 0 <= xx < pre.side() ==> #[trigger] self.voxel(
                        zz,
                        xx,
                        pre.height() - 2,
                    ) is Empty),
                (n >= 1 && forall|zz: int, xx: int|
                    0 <= zz < pre.side() && 0 <= xx < pre.side() ==> #[trigger] pre.voxel(
                        zz,
                        xx,
                        pre.height() - 2,
                    ) is Empty) ==> pre.active() < self.active(),
            decreases drops - n,
        {
            let ghost mid0 = *self;
            proof {
                assert(self.vw <= self.lat_w * self.lat_w * self.vh) by (nonlinear_arith)
                    requires
                        1 <= self.lat_w,
                        1 <= self.vh,
                        self.vw < self.lat_w,
                ;
            }
            let x = rng_below(&mut self.rng, (self.vw - 1) as u32) as usize;
            let z = rng_below(&mut self.rng, (self.vw - 1) as u32) as usize;
            let dir = Direction::rand(&mut self.rng);
            proof {
                lemma_wf_rng_only(mid0, *self);
            }
            let y = self.vh - 2;
            let is_empty = Self::is_empty_voxel(self.grid[z][x][y]);
            if is_empty {
                let ghost mid = *self;
                let e = self.cfg.gravity_force;
                self.set_voxel(z, x, y, Voxel::Water(dir, e));
                proof {
                    lemma_particles_keep_ok(mid, *self, z as int, x as int, y as int);
                }
                let ghost m2 = *self;
                self.push_particle(x, y, z);
                proof {
                    assert forall|i: int|
                        0 <= i < pre.active() implies #[trigger] self.loc(i) == pre.loc(i) by {
                        assert(self.loc(i) == m2.loc(i));
                        assert(m2.loc(i) == mid.loc(i));
                        assert(mid.loc(i) == mid0.loc(i));
                        assert(mid0.loc(i) == pre.loc(i));
                    }
                    assert forall|i: int|
                        0 <= i < pre.active() implies #[trigger] self.shape(i) == pre.shape(i) by {
                        assert(self.shape(i) == m2.shape(i));
                        assert(m2.shape(i) == mid.shape(i));
                        assert(mid.shape(i) == mid0.shape(i));
                        assert(mid0.shape(i) == pre.shape(i));
                    }
                    assert forall|i: int|
                        pre.active() <= i < self.active() implies (#[trigger] self.loc(i)).y
                        == pre.height() - 2 by {
                        if i < m2.active() {
                            assert(self.loc(i) == m2.loc(i));
                            assert(m2.loc(i) == mid.loc(i));
                            assert(mid.loc(i) == mid0.loc(i));
                        } else {
                            assert(self.loc(i) == (Loc { x, y, z }));
                        }
                    }
                    assert forall|i: int|
                        pre.active() <= i < self.active() implies pre.voxel(
                        (#[trigger] self.loc(i)).z as int,
                        self.loc(i).x as int,
                        self.loc(i).y as int,
                    ) is Empty by {
                        if i < m2.active() {
                            assert(self.loc(i) == m2.loc(i));
                            assert(m2.loc(i) == mid.loc(i));
                            assert(mid.loc(i) == mid0.loc(i));
                        } else {
                            assert(self.loc(i) == (Loc { x, y, z }));
                            assert(mid.voxel(z as int, x as int, y as int) == mid0.voxel(
                                z as int,
                                x as int,
                                y as int,
                            ));
                        }
                    }
                    assert forall|i: int|
                        pre.active() <= i < self.active() implies spec_energy_of(
                        self.voxel(
                            (#[trigger] self.loc(i)).z as int,
                            self.loc(i).x as int,
                            self.loc(i).y as int,
                        ),
                    ) == pre.config().gravity_force by {
                        assert(self.particle_ok(i));
                        let l = self.loc(i);
                        assert(l.z < pre.side() && l.x < pre.side() && l.y < pre.height());
                        assert(self.voxel(l.z as int, l.x as int, l.y as int) == m2.voxel(
                            l.z as int,
                            l.x as int,
                            l.y as int,
                        ));
                        if i < m2.active() {
                            assert(self.loc(i) == m2.loc(i));
                            assert(m2.loc(i) == mid.loc(i));
                            assert(mid.loc(i) == mid0.loc(i));
                            if l.z == z && l.x == x && l.y == y {
                                assert(mid.voxel(z as int, x as int, y as int) is Empty);
                                assert(mid0.voxel(l.z as int, l.x as int, l.y as int)
                                    is Water);
                                assert(mid.voxel(l.z as int, l.x as int, l.y as int)
                                    == mid0.voxel(l.z as int, l.x as int, l.y as int));
                                assert(false);
                            }
                            assert(m2.voxel(l.z as int, l.x as int, l.y as int) == mid.voxel(
                                l.z as int,
                                l.x as int,
                                l.y as int,
                            ));
                            assert(mid.voxel(l.z as int, l.x as int, l.y as int) == mid0.voxel(
                                l.z as int,
                                l.x as int,
                                l.y as int,
                            ));
                        } else {
                            assert(self.loc(i) == (Loc { x, y, z }));
                            assert(m2.voxel(z as int, x as int, y as int) == Voxel::Water(
                                dir,
                                e,
                            ));
                        }
                    }
                    assert forall|zz: int, xx: int, yy: int|
                        0 <= zz < pre.side() && 0 <= xx < pre.side() && 0 <= yy < pre.height()
                        implies #[trigger] self.voxel(zz, xx, yy) == pre.voxel(zz, xx, yy) || (yy
                        == pre.height() - 2 && pre.voxel(zz, xx, yy) is Empty && self.voxel(
                        zz,
                        xx,
                        yy,
                    ) is Water) by {
                        assert(self.voxel(zz, xx, yy) == m2.voxel(zz, xx, yy));
                        if zz == z && xx == x && yy == y {
                            assert(m2.voxel(zz, xx, yy) is Water);
                            assert(mid.voxel(zz, xx, yy) is Empty);
                            assert(mid.voxel(zz, xx, yy) == mid0.voxel(zz, xx, yy));
                        } else {
                            assert(m2.voxel(zz, xx, yy) == mid.voxel(zz, xx, yy));
                            assert(mid.voxel(zz, xx, yy) == mid0.voxel(zz, xx, yy));
                        }
                    }
                    assert(pre.active() < self.active());
                }
            } else {
                proof {
                    assert forall|i: int|
                        0 <= i < pre.active() implies #[trigger] self.loc(i) == pre.loc(i) by {
                        assert(self.loc(i) == mid0.loc(i));
                    }
                    assert forall|i: int|
                        0 <= i < pre.active() implies #[trigger] self.shape(i) == pre.shape(i) by {
                        assert(self.shape(i) == mid0.shape(i));
                    }
                    assert forall|i: int|
                        pre.active() <= i < self.active() implies (#[trigger] self.loc(i)).y
                        == pre.height() - 2 by {
                        assert(self.loc(i) == mid0.loc(i));
                    }
                    assert forall|i: int|
                        pre.active() <= i < self.active() implies pre.voxel(
                        (#[trigger] self.loc(i)).z as int,
                        self.loc(i).x as int,
                        self.loc(i).y as int,
                    ) is Empty by {
                        assert(self.loc(i) == mid0.loc(i));
                    }
                    assert forall|i: int|
                        pre.active() <= i < self.active() implies spec_energy_of(
                        self.voxel(
                            (#[trigger] self.loc(i)).z as int,
                            self.loc(i).x as int,
                            self.loc(i).y as int,
                        ),
                    ) == pre.config().gravity_force by {
                        let l = self.loc(i);
                        assert(self.loc(i) == mid0.loc(i));
                        assert(self.voxel(l.z as int, l.x as int, l.y as int) == mid0.voxel(
                            l.z as int,
                            l.x as int,
                            l.y as int,
                        ));
                    }
                    assert forall|zz: int, xx: int, yy: int|
                        0 <= zz < pre.side() && 0 <= xx < pre.side() && 0 <= yy < pre.height()
                        implies #[trigger] self.voxel(zz, xx, yy) == mid0.voxel(zz, xx, yy) by {}
                    if (forall|zz: int, xx: int|
                        0 <= zz < pre.side() && 0 <= xx < pre.side() ==> #[trigger] pre.voxel(
                            zz,
                            xx,
                            pre.height() - 2,
                        ) is Empty) && !(pre.active() < self.active()) {
                        assert(mid0.active() == self.active());
                        assert(mid0.voxel(z as int, x as int, y as int) is Empty);
                        assert(self.voxel(z as int, x as int, y as int) == mid0.voxel(
                            z as int,
                            x as int,
                            y as int,
                        ));
                        assert(false);
                    }
                }
            }
            n = n + 1;
        }
    }

    /// Entry `n` of the flat index buffer: six indices per active
    /// particle, two triangles of three corners each.
    pub open spec fn ib_entry(self, n: int) -> u32 {
        let k = n / 6;
        let j = n % 6;
        if j == 0 {
            self.shape(k).t0.i0
        } else if j == 1 {
            self.shape(k).t0.i1
        } else if j == 2 {
            self.shape(k).t0.i2
        } else if j == 3 {
            self.shape(k).t1.i0
        } else if j == 4 {
            self.shape(k).t1.i1
        } else {
            self.shape(k).t1.i2
        }
    }

    /// The current renderable geometry: the static vertex lattice, and the
    /// concatenated two-triangle quads of the active particles, six
    /// indices per particle.
    pub fn geometry(&self) -> (r: (Vec<Vertex>, Vec<u32>))
        requires
            self.wf(),
        ensures
            r.0@.len() == self.lattice() * self.lattice() * self.height(),
            forall|n: int|
                0 <= n < r.0@.len() ==> #[trigger] r.0@[n] == spec_vertex_at(
                    n,
                    self.lattice(),
                    self.height(),
                ),
            r.1@.len() == 6 * self.active(),
            forall|n: int| 0 <= n < r.1@.len() ==> #[trigger] r.1@[n] == self.ib_entry(n),
    {
        let verts = generate_vertex_grid(self.lat_w, self.vh);
        let mut idx: Vec<u32> = Vec::new();
        let m = self.ib_data.len();
        let mut k: usize = 0;
        while k < m
            invariant
                self.wf(),
                k <= m,
                m == self.ib_data@.len(),
                idx@.len() == 6 * k,
                forall|n: int| 0 <= n < idx@.len() ==> #[trigger] idx@[n] == self.ib_entry(n),
            decreases m - k,
        {
            let s = self.ib_data[k];
            idx.push(s.t0.i0);
            idx.push(s.t0.i1);
            idx.push(s.t0.i2);
            idx.push(s.t1.i0);
            idx.push(s.t1.i1);
            idx.push(s.t1.i2);
            proof {
                lemma_fundamental_div_mod_converse(6 * k as int + 0, 6, k as int, 0);
                lemma_fundamental_div_mod_converse(6 * k as int + 1, 6, k as int, 1);
                lemma_fundamental_div_mod_converse(6 * k as int + 2, 6, k as int, 2);
                lemma_fundamental_div_mod_converse(6 * k as int + 3, 6, k as int, 3);
                lemma_fundamental_div_mod_converse(6 * k as int + 4, 6, k as int, 4);
                lemma_fundamental_div_mod_converse(6 * k as int + 5, 6, k as int, 5);
            }
            k = k + 1;
        }
        (verts, idx)
    }

    /// Replace the terrain: re-voxelize the new height grid (which must
    /// have the automaton's lattice size) and restart the water from an
    /// empty, level-zero state.
    pub fn set_grid(&mut self, grid_heights: &Vec<Vec<u32>>)
        requires
            old(self).wf(),
            heights_wf(
                grid_heights@.map_values(|row: Vec<u32>| row@),
                grid_heights@.len() as int,
            ),
            grid_heights@.len() == old(self).lattice(),
        ensures
            final(self).wf(),
            final(self).keeps_dims(*old(self)),
            final(self).level() == 0,
            final(self).active() == 0,
            forall|z: int, x: int, y: int|
                0 <= z < final(self).side() && 0 <= x < final(self).side() && 0 <= y < final(self).height() ==> #[trigger] final(self).voxel(z, x, y) == (
                if y < spec_col_count(
                    grid_heights@.map_values(|row: Vec<u32>| row@),
                    z,
                    x,
                    final(self).height(),
                ) {
                    Voxel::Border(
                        spec_col_direction(grid_heights@.map_values(|row: Vec<u32>| row@), z, x),
                    )
                } else {
                    Voxel::Empty
                }),
    {
        let vh = self.vh;
        let g = voxelize(grid_heights, vh);
        let ghost hs = grid_heights@.map_values(|row: Vec<u32>| row@);
        let ghost gv = g@.map_values(|side: Vec<Vec<Voxel>>| side@.map_values(|col: Vec<Voxel>| col@));
        self.grid = g;
        self.locations.clear();
        self.ib_data.clear();
        self.water_level = 0;
        proof {
            assert forall|z: int| 0 <= z < self.vw implies (#[trigger] self.grid@[z])@.len()
                == self.vw by {
                assert(gv[z] == self.grid@[z]@.map_values(|col: Vec<Voxel>| col@));
            }
            assert forall|z: int, x: int|
                0 <= z < self.vw && 0 <= x < self.vw implies (#[trigger] self.grid@[z]@[x])@.len()
                == self.vh by {
                assert(gv[z] == self.grid@[z]@.map_values(|col: Vec<Voxel>| col@));
                assert(gv[z][x] == self.grid@[z]@[x]@);
            }
            assert forall|z: int, x: int, y: int|
                0 <= z < self.side() && 0 <= x < self.side() && 0 <= y < self.height()
                implies #[trigger] self.voxel(z, x, y) == (if y < spec_col_count(
                hs,
                z,
                x,
                self.height(),
            ) {
                Voxel::Border(spec_col_direction(hs, z, x))
            } else {
                Voxel::Empty
            }) by {
                assert(gv[z] == self.grid@[z]@.map_values(|col: Vec<Voxel>| col@));
                assert(gv[z][x] == self.grid@[z]@[x]@);
                assert(gv[z][x][y] == self.voxel(z, x, y));
            }
        }
    }
}

/// Every active particle's quad equals the canonical shape formula at its
/// current location.
pub proof fn lemma_shapes_canonical(w: Water, i: int)
    requires
        w.wf(),
        0 <= i < w.active(),
    ensures
        shape_matches(
            w.shape(i),
            w.loc(i).x as int,
            w.loc(i).y as int,
            w.loc(i).z as int,
            w.lattice(),
            w.height(),
        ),
{
    assert(w.particle_ok(i));
}

/// The boundary slab that a wave from `dir` fills: the edge row or column
/// facing `dir`, over the lower `y_hi` cells of the height range.
pub open spec fn in_wave_slab(dir: Direction, z: int, x: int, y: int, vw: int, y_hi: int) -> bool {
    &&& 0 <= y < y_hi
    &&& match dir {
        Direction::South => z == vw - 1 && 0 <= x < vw,
        Direction::North => z == 0 && 0 <= x < vw,
        Direction::East => x == vw - 1 && 0 <= z < vw,
        Direction::West => x == 0 && 0 <= z < vw,
    }
}

/// Every column of the automaton is occupied (non-empty) at `level`.
pub open spec fn level_full(w: Water, level: int) -> bool {
    forall|zz: int, xx: int|
        0 <= zz < w.side() && 0 <= xx < w.side() ==> !(#[trigger] w.voxel(zz, xx, level) is Empty)
}

/// A particle the pruning pass keeps: on the domain boundary, or not yet
/// settled strictly below `level - 1`.
pub open spec fn keeps_particle(l: Loc, side: int, level: int) -> bool {
    !((0 < l.z && l.z < side - 1) && (0 < l.x && l.x < side - 1) && l.y < level - 1)
}

/// The pruning keep-condition as a predicate on location/quad pairs.
pub open spec fn keep_pred(side: int, level: int) -> spec_fn((Loc, ParticleShape)) -> bool {
    |pr: (Loc, ParticleShape)| keeps_particle(pr.0, side, level)
}

/// Number of empty cells at layer `level` among the first `xn` columns of
/// row `zz`.
pub open spec fn empty_in_row(w: Water, level: int, zz: int, xn: int) -> int
    decreases xn,
{
    if xn <= 0 {
        0
    } else {
        empty_in_row(w, level, zz, xn - 1) + (if w.voxel(zz, xn - 1, level) is Empty {
            1int
        } else {
            0int
        })
    }
}

/// Number of empty cells at layer `level` in the first `zn` rows.
pub open spec fn empty_at_level(w: Water, level: int, zn: int) -> int
    decreases zn,
{
    if zn <= 0 {
        0
    } else {
        empty_at_level(w, level, zn - 1) + empty_in_row(w, level, zn - 1, w.side())
    }
}

proof fn lemma_empty_row_congruent(a: Water, b: Water, level: int, zz: int, xn: int)
    requires
        forall|xx: int| 0 <= xx < xn ==> #[trigger] a.voxel(zz, xx, level) == b.voxel(zz, xx, level),
    ensures
        empty_in_row(a, level, zz, xn) == empty_in_row(b, level, zz, xn),
    decreases xn,
{
    if xn > 0 {
        lemma_empty_row_congruent(a, b, level, zz, xn - 1);
    }
}

proof fn lemma_empty_level_congruent(a: Water, b: Water, level: int, zn: int)
    requires
        a.side() == b.side(),
        forall|zz: int, xx: int|
            0 <= zz < zn && 0 <= xx < a.side() ==> #[trigger] a.voxel(zz, xx, level) == b.voxel(
                zz,
                xx,
                level,
            ),
    ensures
        empty_at_level(a, level, zn) == empty_at_level(b, level, zn),
    decreases zn,
{
    if zn > 0 {
        lemma_empty_level_congruent(a, b, level, zn - 1);
        lemma_empty_row_congruent(a, b, level, zn - 1, a.side());
    }
}

/// The coordinate that runs along the wave's edge.
pub open spec fn slab_axis(dir: Direction, z: int, x: int) -> int {
    match dir {
        Direction::South => x,
        Direction::North => x,
        Direction::East => z,
        Direction::West => z,
    }
}

/// Row of the slab cell with edge coordinate `a`.
pub open spec fn slab_z(dir: Direction, a: int, vw: int) -> int {
    match dir {
        Direction::South => vw - 1,
        Direction::North => 0,
        Direction::East => a,
        Direction::West => a,
    }
}

/// Column of the slab cell with edge coordinate `a`.
pub open spec fn slab_x(dir: Direction, a: int, vw: int) -> int {
    match dir {
        Direction::South => a,
        Direction::North => a,
        Direction::East => vw - 1,
        Direction::West => 0,
    }
}

/// Number of empty cells in the slab column at edge coordinate `a`,
/// below height `yn`.
pub open spec fn wave_empty_in_col(w: Water, dir: Direction, a: int, yn: int) -> int
    decreases yn,
{
    if yn <= 0 {
        0
    } else {
        wave_empty_in_col(w, dir, a, yn - 1) + (if w.voxel(
            slab_z(dir, a, w.side()),
            slab_x(dir, a, w.side()),
            yn - 1,
        ) is Empty {
            1int
        } else {
            0int
        })
    }
}

/// Number of empty slab cells over the first `an` edge coordinates.
pub open spec fn wave_empty_upto(w: Water, dir: Direction, an: int, y_hi: int) -> int
    decreases an,
{
    if an <= 0 {
        0
    } else {
        wave_empty_upto(w, dir, an - 1, y_hi) + wave_empty_in_col(w, dir, an - 1, y_hi)
    }
}

/// Number of water voxels in column `(zz, xx)` below height `yn`.
pub open spec fn water_in_col(w: Water, zz: int, xx: int, yn: int) -> int
    decreases yn,
{
    if yn <= 0 {
        0
    } else {
        water_in_col(w, zz, xx, yn - 1) + (if w.voxel(zz, xx, yn - 1) is Water {
            1int
        } else {
            0int
        })
    }
}

/// Number of water voxels in the first `xn` columns of row `zz`.
pub open spec fn water_in_side(w: Water, zz: int, xn: int) -> int
    decreases xn,
{
    if xn <= 0 {
        0
    } else {
        water_in_side(w, zz, xn - 1) + water_in_col(w, zz, xn - 1, w.height())
    }
}

/// Number of water voxels in the first `zn` rows of the grid.
pub open spec fn water_count(w: Water, zn: int) -> int
    decreases zn,
{
    if zn <= 0 {
        0
    } else {
        water_count(w, zn - 1) + water_in_side(w, zn - 1, w.side())
    }
}

proof fn lemma_water_col_congruent(a: Water, b: Water, zz: int, xx: int, yn: int)
    requires
        forall|yy: int| 0 <= yy < yn ==> #[trigger] a.voxel(zz, xx, yy) == b.voxel(zz, xx, yy),
    ensures
        water_in_col(a, zz, xx, yn) == water_in_col(b, zz, xx, yn),
    decreases yn,
{
    if yn > 0 {
        lemma_water_col_congruent(a, b, zz, xx, yn - 1);
    }
}

proof fn lemma_water_side_congruent(a: Water, b: Water, zz: int, xn: int)
    requires
        a.height() == b.height(),
        forall|xx: int, yy: int|
            0 <= xx < xn && 0 <= yy < a.height() ==> #[trigger] a.voxel(zz, xx, yy) == b.voxel(
                zz,
                xx,
                yy,
            ),
    ensures
        water_in_side(a, zz, xn) == water_in_side(b, zz, xn),
    decreases xn,
{
    if xn > 0 {
        lemma_water_side_congruent(a, b, zz, xn - 1);
        lemma_water_col_congruent(a, b, zz, xn - 1, a.height());
    }
}

/// Two states with the same dimensions and the same voxels hold the same
/// amount of water.
proof fn lemma_water_count_congruent(a: Water, b: Water, zn: int)
    requires
        a.side() == b.side(),
        a.height() == b.height(),
        forall|zz: int, xx: int, yy: int|
            0 <= zz < zn && 0 <= xx < a.side() && 0 <= yy < a.height() ==> #[trigger] a.voxel(
                zz,
                xx,
                yy,
            ) == b.voxel(zz, xx, yy),
    ensures
        water_count(a, zn) == water_count(b, zn),
    decreases zn,
{
    if zn > 0 {
        lemma_water_count_congruent(a, b, zn - 1);
        lemma_water_side_congruent(a, b, zn - 1, a.side());
    }
}

proof fn lemma_water_col_update(a: Water, b: Water, zz: int, xx: int, cy: int, yn: int)
    requires
        0 <= cy,
        forall|yy: int|
            0 <= yy < yn && yy != cy ==> #[trigger] a.voxel(zz, xx, yy) == b.voxel(zz, xx, yy),
    ensures
        water_in_col(b, zz, xx, yn) == water_in_col(a, zz, xx, yn) + (if cy < yn {
            (if b.voxel(zz, xx, cy) is Water {
                1int
            } else {
                0int
            }) - (if a.voxel(zz, xx, cy) is Water {
                1int
            } else {
                0int
            })
        } else {
            0int
        }),
    decreases yn,
{
    if yn > 0 {
        lemma_water_col_update(a, b, zz, xx, cy, yn - 1);
    }
}

proof fn lemma_water_side_update(a: Water, b: Water, zz: int, cx: int, cy: int, xn: int)
    requires
        a.height() == b.height(),
        0 <= cx,
        0 <= cy < a.height(),
        forall|xx: int, yy: int|
            0 <= xx < xn && 0 <= yy < a.height() && !(xx == cx && yy == cy)
                ==> #[trigger] a.voxel(zz, xx, yy) == b.voxel(zz, xx, yy),
    ensures
        water_in_side(b, zz, xn) == water_in_side(a, zz, xn) + (if cx < xn {
            (if b.voxel(zz, cx, cy) is Water {
                1int
            } else {
                0int
            }) - (if a.voxel(zz, cx, cy) is Water {
                1int
            } else {
                0int
            })
        } else {
            0int
        }),
    decreases xn,
{
    if xn > 0 {
        lemma_water_side_update(a, b, zz, cx, cy, xn - 1);
        if xn - 1 == cx {
            lemma_water_col_update(a, b, zz, xn - 1, cy, a.height());
        } else {
            lemma_water_col_congruent(a, b, zz, xn - 1, a.height());
        }
    }
}

/// Rewriting one voxel changes the water count by exactly the difference
/// at that cell.
proof fn lemma_water_count_update(a: Water, b: Water, cz: int, cx: int, cy: int)
    requires
        a.side() == b.side(),
        a.height() == b.height(),
        0 <= cz < a.side(),
        0 <= cx < a.side(),
        0 <= cy < a.height(),
        forall|zz: int, xx: int, yy: int|
            0 <= zz < a.side() && 0 <= xx < a.side() && 0 <= yy < a.height() && !(zz == cz && xx
                == cx && yy == cy) ==> #[trigger] a.voxel(zz, xx, yy) == b.voxel(zz, xx, yy),
    ensures
        water_count(b, b.side()) == water_count(a, a.side()) + (if b.voxel(cz, cx, cy) is Water {
            1int
        } else {
            0int
        }) - (if a.voxel(cz, cx, cy) is Water {
            1int
        } else {
            0int
        }),
{
    lemma_water_count_update_upto(a, b, cz, cx, cy, a.side());
}

proof fn lemma_water_count_update_upto(a: Water, b: Water, cz: int, cx: int, cy: int, zn: int)
    requires
        a.side() == b.side(),
        a.height() == b.height(),
        0 <= cz,
        0 <= cx < a.side(),
        0 <= cy < a.height(),
        forall|zz: int, xx: int, yy: int|
            0 <= zz < zn && 0 <= xx < a.side() && 0 <= yy < a.height() && !(zz == cz && xx == cx
                && yy == cy) ==> #[trigger] a.voxel(zz, xx, yy) == b.voxel(zz, xx, yy),
    ensures
        water_count(b, zn) == water_count(a, zn) + (if cz < zn {
            (if b.voxel(cz, cx, cy) is Water {
                1int
            } else {
                0int
            }) - (if a.voxel(cz, cx, cy) is Water {
                1int
            } else {
                0int
            })
        } else {
            0int
        }),
    decreases zn,
{
    if zn > 0 {
        lemma_water_count_update_upto(a, b, cz, cx, cy, zn - 1);
        if zn - 1 == cz {
            lemma_water_side_update(a, b, zn - 1, cx, cy, a.side());
        } else {
            lemma_water_side_congruent(a, b, zn - 1, a.side());
        }
    }
}

/// Everything one particle step guarantees, whatever the draws: the
/// invariant and dimensions are kept, the level and the particle count do
/// not change, no other particle is touched, an asleep or exhausted
/// particle is left alone, gravity has priority (an empty cell below
/// means a one-cell fall, nothing else), a free path down a border slope
/// is taken, a floor particle slides along its own free direction, a
/// collision feeds the occupant below exactly `collision_gain`, and a
/// particle that cannot fall never changes its height.
pub open spec fn step_rel(pre: Water, post: Water, i: int) -> bool {
    &&& ({
        post.wf()
    })
    &&& ({
        post.keeps_dims(pre)
    })
    &&& ({
        post.level() == pre.level()
    })
    &&& ({
        post.active() == pre.active()
    })
    &&& ({
        forall|j: int|
            0 <= j < pre.active() && j != i ==> #[trigger] post.loc(j) == pre.loc(j)
    })
    &&& ({
        forall|j: int|
            0 <= j < pre.active() && j != i ==> #[trigger] post.shape(j) == pre.shape(j)
    })
    &&& ({
        ({
            let l = pre.loc(i);
            l.y < pre.level() || spec_energy_of(
                pre.voxel(l.z as int, l.x as int, l.y as int),
            ) <= 0
        }) ==> post == pre
    })
    &&& ({
        ({
            let l = pre.loc(i);
            &&& l.y >= pre.level()
            &&& spec_energy_of(pre.voxel(l.z as int, l.x as int, l.y as int)) > 0
            &&& l.y > 0
            &&& pre.voxel(l.z as int, l.x as int, l.y as int - 1) is Empty
        }) ==> ({
            let l = pre.loc(i);
            let v = pre.voxel(l.z as int, l.x as int, l.y as int);
            &&& post.loc(i) == (Loc { x: l.x, y: (l.y - 1) as usize, z: l.z })
            &&& post.voxel(l.z as int, l.x as int, l.y as int) is Empty
            &&& post.voxel(l.z as int, l.x as int, l.y as int - 1) == Voxel::Water(
                spec_dir_of(v),
                spec_energy_add(
                    spec_energy_of(v),
                    pre.config().gravity_force as int,
                ) as i32,
            )
            &&& forall|zz: int, xx: int, yy: int|
                0 <= zz < pre.side() && 0 <= xx < pre.side() && 0 <= yy < pre.height() && !(zz == l.z && xx == l.x && yy == l.y) && !(zz == l.z && xx
                    == l.x && yy == l.y - 1) ==> #[trigger] post.voxel(zz, xx, yy)
                    == pre.voxel(zz, xx, yy)
        })
    })
    &&& ({
        ({
            let l = pre.loc(i);
            let below = pre.voxel(l.z as int, l.x as int, l.y as int - 1);
            &&& l.y >= pre.level()
            &&& spec_energy_of(pre.voxel(l.z as int, l.x as int, l.y as int)) > 0
            &&& l.y > 0
            &&& below is Border
            &&& !at_edge(spec_dir_of(below), l, pre.side())
            &&& ({
                let nb = primary_loc(spec_dir_of(below), l);
                pre.voxel(nb.z as int, nb.x as int, nb.y as int) is Empty
            })
        }) ==> ({
            let l = pre.loc(i);
            let v = pre.voxel(l.z as int, l.x as int, l.y as int);
            let bd = spec_dir_of(pre.voxel(l.z as int, l.x as int, l.y as int - 1));
            let nb = primary_loc(bd, l);
            &&& post.loc(i) == nb
            &&& post.voxel(l.z as int, l.x as int, l.y as int) is Empty
            &&& post.voxel(nb.z as int, nb.x as int, nb.y as int) == Voxel::Water(
                bd,
                (spec_energy_of(v) - pre.config().primary_cost) as i32,
            )
            &&& forall|zz: int, xx: int, yy: int|
                0 <= zz < pre.side() && 0 <= xx < pre.side() && 0 <= yy < pre.height() && !(zz == l.z && xx == l.x && yy == l.y) && !(zz == nb.z && xx
                    == nb.x && yy == nb.y) ==> #[trigger] post.voxel(zz, xx, yy)
                    == pre.voxel(zz, xx, yy)
        })
    })
    &&& ({
        ({
            let l = pre.loc(i);
            let v = pre.voxel(l.z as int, l.x as int, l.y as int);
            &&& l.y >= pre.level()
            &&& spec_energy_of(v) > 0
            &&& l.y == 0
            &&& !at_edge(spec_dir_of(v), l, pre.side())
            &&& ({
                let nb = primary_loc(spec_dir_of(v), l);
                pre.voxel(nb.z as int, nb.x as int, nb.y as int) is Empty
            })
        }) ==> ({
            let l = pre.loc(i);
            let v = pre.voxel(l.z as int, l.x as int, l.y as int);
            let nb = primary_loc(spec_dir_of(v), l);
            &&& post.loc(i) == nb
            &&& post.voxel(l.z as int, l.x as int, l.y as int) is Empty
            &&& post.voxel(nb.z as int, nb.x as int, nb.y as int) == Voxel::Water(
                spec_dir_of(v),
                (spec_energy_of(v) - pre.config().primary_cost) as i32,
            )
            &&& forall|zz: int, xx: int, yy: int|
                0 <= zz < pre.side() && 0 <= xx < pre.side() && 0 <= yy < pre.height() && !(zz == l.z && xx == l.x && yy == l.y) && !(zz == nb.z && xx
                    == nb.x && yy == nb.y) ==> #[trigger] post.voxel(zz, xx, yy)
                    == pre.voxel(zz, xx, yy)
        })
    })
    &&& ({
        let l = pre.loc(i);
        (l.y >= pre.level() && spec_energy_of(pre.voxel(l.z as int, l.x as int, l.y as int)) > 0
            && l.y > 0 && pre.voxel(l.z as int, l.x as int, l.y as int - 1) is Water) ==> ({
            let l2 = pre.loc(i);
            let below = pre.voxel(l2.z as int, l2.x as int, l2.y as int - 1);
            &&& post.voxel(l2.z as int, l2.x as int, l2.y as int - 1) is Water
            &&& spec_energy_of(post.voxel(l2.z as int, l2.x as int, l2.y as int - 1))
                == spec_energy_add(spec_energy_of(below), pre.config().collision_gain as int)
        })
    })
    &&& ({
        let l = pre.loc(i);
        (l.y >= pre.level() && spec_energy_of(pre.voxel(l.z as int, l.x as int, l.y as int)) > 0
            && l.y > 0 && pre.voxel(l.z as int, l.x as int, l.y as int - 1) is Border && !at_edge(
            spec_dir_of(pre.voxel(l.z as int, l.x as int, l.y as int - 1)),
            l,
            pre.side(),
        )) ==> ({
            let bd = spec_dir_of(pre.voxel(l.z as int, l.x as int, l.y as int - 1));
            let nl = post.loc(i);
            &&& post.voxel(nl.z as int, nl.x as int, nl.y as int) is Water
            &&& spec_dir_of(post.voxel(nl.z as int, nl.x as int, nl.y as int)) == bd
        })
    })
    &&& ({
        let l = pre.loc(i);
        (l.y >= pre.level() && spec_energy_of(pre.voxel(l.z as int, l.x as int, l.y as int)) > 0
            && (l.y == 0 || !(pre.voxel(l.z as int, l.x as int, l.y as int - 1) is Empty)))
            ==> post.loc(i).y == l.y
    })
    &&& water_count(post, post.side()) == water_count(pre, pre.side())
}

/// Everything the level bookkeeping guarantees: the level advances by
/// one (clamped at `height - 2`) exactly when every column is occupied at
/// the old level, no voxel changes, and past the settling threshold
/// exactly the settled interior particles are pruned.
pub open spec fn update_rel(pre: Water, post: Water) -> bool {
    &&& ({
        post.wf()
    })
    &&& ({
        post.keeps_dims(pre)
    })
    &&& ({
        pre.level() <= post.level()
    })
    &&& ({
        post.level() == (if level_full(pre, pre.level()) {
            if pre.level() + 1 <= pre.height() - 2 {
                pre.level() + 1
            } else {
                pre.height() - 2
            }
        } else {
            pre.level()
        })
    })
    &&& ({
        forall|zz: int, xx: int, yy: int|
            0 <= zz < pre.side() && 0 <= xx < pre.side() && 0 <= yy < pre.height() ==> #[trigger] post.voxel(zz, xx, yy) == pre.voxel(
                zz,
                xx,
                yy,
            )
    })
    &&& ({
        post.active() <= pre.active()
    })
    &&& ({
        forall|i: int|
            0 <= i < post.active() ==> #[trigger] post.came_from(
                pre,
                i,
            )
    })
    &&& ({
        !(level_full(pre, pre.level()) && post.level() > 3) ==> post.active() == pre.active() && post.particles_preserved(
            pre,
            pre.active(),
        )
    })
    &&& ({
        (level_full(pre, pre.level()) && post.level() > 3) ==> {
            &&& forall|i: int|
                0 <= i < post.active() ==> keeps_particle(
                    #[trigger] post.loc(i),
                    post.side(),
                    post.level(),
                )
            &&& forall|j: int|
                0 <= j < pre.active() && keeps_particle(
                    #[trigger] pre.loc(j),
                    pre.side(),
                    post.level(),
                ) ==> post.survives(pre, j)
        }
    })
    &&& ((level_full(pre, pre.level()) && post.level() > 3) ==> post.particles()
        == pre.particles().filter(keep_pred(pre.side(), post.level())))
}

/// The first `k` particles have each taken one step, in index order,
/// through some intermediate states.
pub open spec fn sweep_rel(pre: Water, post: Water, k: int) -> bool
    decreases k,
{
    if k <= 0 {
        post == pre
    } else {
        exists|mid: Water| sweep_rel(pre, mid, k - 1) && #[trigger] step_rel(mid, post, k - 1)
    }
}

proof fn lemma_sweep_extend(pre: Water, mid: Water, post: Water, k: int)
    requires
        k >= 0,
        sweep_rel(pre, mid, k),
        step_rel(mid, post, k),
    ensures
        sweep_rel(pre, post, k + 1),
{
    assert(sweep_rel(pre, mid, k) && step_rel(mid, post, k));
    assert(step_rel(mid, post, k + 1 - 1));
    assert(sweep_rel(pre, mid, k + 1 - 1));
    assert(exists|m: Water|
        sweep_rel(pre, m, k + 1 - 1) && #[trigger] step_rel(m, post, k + 1 - 1));
}

proof fn lemma_modulate_witness(pre: Water, mid: Water, post: Water)
    requires
        sweep_rel(pre, mid, pre.active()),
        update_rel(mid, post),
    ensures
        exists|m: Water| sweep_rel(pre, m, pre.active()) && #[trigger] update_rel(m, post),
{
    assert(sweep_rel(pre, mid, pre.active()) && update_rel(mid, post));
}

/// A well-formed automaton's water level never exceeds `height - 2`.
pub proof fn lemma_level_bounded(w: Water)
    requires
        w.wf(),
    ensures
        w.level() + 2 <= w.height(),
{
}

/// A particle equal in place and shape to particle `j` of `pre` came from
/// `pre`.
proof fn lemma_came_from(post: Water, pre: Water, i: int, j: int)
    requires
        0 <= j < pre.active(),
        post.loc(i) == pre.loc(j),
        post.shape(i) == pre.shape(j),
    ensures
        post.came_from(pre, i),
{
    assert(0 <= j < pre.active() && post.loc(i) == pre.loc(j) && post.shape(i) == pre.shape(j));
}

/// A particle equal in place and shape to particle `j` of `pre` shows
/// that `j` survived.
proof fn lemma_survives(post: Water, pre: Water, i: int, j: int)
    requires
        0 <= i < post.active(),
        post.loc(i) == pre.loc(j),
        post.shape(i) == pre.shape(j),
    ensures
        post.survives(pre, j),
{
    assert(0 <= i < post.active() && post.loc(i) == pre.loc(j) && post.shape(i) == pre.shape(j));
}

/// Membership of an index in the ghost source list of a pruning pass.
spec fn src_has(src: Seq<int>, j: int) -> bool {
    exists|m: int| 0 <= m < src.len() && #[trigger] src[m] == j
}

proof fn lemma_src_has(src: Seq<int>, m: int)
    requires
        0 <= m < src.len(),
    ensures
        src_has(src, src[m]),
{
}

/// Direction stored in a voxel (`East` for an empty cell, which stores
/// none).
pub open spec fn spec_dir_of(v: Voxel) -> Direction {
    match v {
        Voxel::Water(d, _) => d,
        Voxel::Border(d) => d,
        Voxel::Empty => Direction::East,
    }
}

/// The particle at `l` faces the domain edge along `d`.
pub open spec fn at_edge(d: Direction, l: Loc, side: int) -> bool {
    match d {
        Direction::North => l.z == 0,
        Direction::South => l.z >= side - 1,
        Direction::East => l.x >= side - 1,
        Direction::West => l.x == 0,
    }
}

/// The neighbouring cell one step along `d` from `l`.
pub open spec fn primary_loc(d: Direction, l: Loc) -> Loc {
    match d {
        Direction::North => Loc { x: l.x, y: l.y, z: (l.z - 1) as usize },
        Direction::South => Loc { x: l.x, y: l.y, z: (l.z + 1) as usize },
        Direction::East => Loc { x: (l.x + 1) as usize, y: l.y, z: l.z },
        Direction::West => Loc { x: (l.x - 1) as usize, y: l.y, z: l.z },
    }
}

/// Energy stored in a voxel (zero unless it is water).
pub open spec fn spec_energy_of(v: Voxel) -> int {
    match v {
        Voxel::Water(_, e) => e as int,
        _ => 0,
    }
}

/// A state that differs from a well-formed one only in the random source
/// is still well-formed.
proof fn lemma_wf_rng_only(pre: Water, post: Water)
    requires
        pre.wf(),
        post.grid == pre.grid,
        post.locations == pre.locations,
        post.ib_data == pre.ib_data,
        post.water_level == pre.water_level,
        post.water_level_max == pre.water_level_max,
        post.vw == pre.vw,
        post.vh == pre.vh,
        post.lat_w == pre.lat_w,
        post.cfg == pre.cfg,
    ensures
        post.wf(),
{
    assert forall|i: int| 0 <= i < post.locations@.len() implies post.particle_ok(i) by {
        assert(pre.particle_ok(i));
    }
}

/// Rewriting a `Water` voxel with another `Water` value preserves the
/// invariant: every particle still rests on water.
proof fn lemma_water_rewrite_ok(pre: Water, post: Water, z: int, x: int, y: int)
    requires
        pre.wf(),
        0 <= z < pre.side(),
        0 <= x < pre.side(),
        0 <= y < pre.height(),
        pre.voxel(z, x, y) is Water,
        post.voxel(z, x, y) is Water,
        post.dims_ok(),
        post.side() == pre.side(),
        post.height() == pre.height(),
        post.lattice() == pre.lattice(),
        forall|zz: int, xx: int, yy: int|
            0 <= zz < pre.side() && 0 <= xx < pre.side() && 0 <= yy < pre.height() && !(zz == z
                && xx == x && yy == y) ==> #[trigger] post.voxel(zz, xx, yy) == pre.voxel(
                zz,
                xx,
                yy,
            ),
        post.locations@ == pre.locations@,
        post.ib_data@ == pre.ib_data@,
        post.water_level == pre.water_level,
        post.cfg == pre.cfg,
    ensures
        post.wf(),
{
    assert forall|i: int| 0 <= i < post.locations@.len() implies post.particle_ok(i) by {
        assert(pre.particle_ok(i));
        let l = pre.locations@[i];
        if !(l.z == z && l.x == x && l.y == y) {
            assert(post.voxel(l.z as int, l.x as int, l.y as int) == pre.voxel(
                l.z as int,
                l.x as int,
                l.y as int,
            ));
        }
    }
}

/// Turning one `Empty` voxel into `Water` preserves the invariant: no
/// active particle sat on that cell, so every particle still rests on
/// water, and the new cell is free for a fresh particle.
proof fn lemma_particles_keep_ok(pre: Water, post: Water, z: int, x: int, y: int)
    requires
        pre.wf(),
        0 <= z < pre.side(),
        0 <= x < pre.side(),
        0 <= y < pre.height(),
        pre.voxel(z, x, y) is Empty,
        post.dims_ok(),
        post.voxel(z, x, y) is Water,
        forall|zz: int, xx: int, yy: int|
            0 <= zz < pre.side() && 0 <= xx < pre.side() && 0 <= yy < pre.height() && !(zz == z
                && xx == x && yy == y) ==> #[trigger] post.voxel(zz, xx, yy) == pre.voxel(
                zz,
                xx,
                yy,
            ),
        post.side() == pre.side(),
        post.height() == pre.height(),
        post.lattice() == pre.lattice(),
        post.locations@ == pre.locations@,
        post.ib_data@ == pre.ib_data@,
        post.water_level == pre.water_level,
        post.cfg == pre.cfg,
    ensures
        post.wf(),
        forall|i: int|
            0 <= i < post.active() ==> (#[trigger] post.loc(i)) != (Loc {
                x: x as usize,
                y: y as usize,
                z: z as usize,
            }),
{
    assert forall|i: int| 0 <= i < post.locations@.len() implies post.particle_ok(i) by {
        assert(pre.particle_ok(i));
        let l = pre.locations@[i];
        if l.z == z && l.x == x && l.y == y {
            assert(pre.voxel(z, x, y) is Water);
        } else {
            assert(post.voxel(l.z as int, l.x as int, l.y as int) == pre.voxel(
                l.z as int,
                l.x as int,
                l.y as int,
            ));
        }
    }
    assert forall|i: int|
        0 <= i < post.active() implies (#[trigger] post.loc(i)) != (Loc {
        x: x as usize,
        y: y as usize,
        z: z as usize,
    }) by {
        assert(pre.particle_ok(i));
        let l = pre.locations@[i];
        if l.x == x as usize && l.y == y as usize && l.z == z as usize {
            assert(pre.voxel(z, x, y) is Water);
        }
    }
}

/// Flushing a second time changes nothing observable: the level stays zero,
/// no particle is active, and every voxel keeps its drained value.
pub proof fn lemma_flush_idempotent(a: Water, b: Water, c: Water)
    requires
        a.wf(),
        b.is_flush_of(a),
        c.is_flush_of(b),
    ensures
        c.level() == b.level(),
        c.active() == b.active(),
        forall|z: int, x: int, y: int|
            0 <= z < b.side() && 0 <= x < b.side() && 0 <= y < b.height() ==> #[trigger] c.voxel(
                z,
                x,
                y,
            ) == b.voxel(z, x, y),
{
    assert forall|z: int, x: int, y: int|
        0 <= z < b.side() && 0 <= x < b.side() && 0 <= y < b.height() implies #[trigger] c.voxel(
        z,
        x,
        y,
    ) == b.voxel(z, x, y) by {
        assert(b.voxel(z, x, y) == spec_flushed_voxel(a.voxel(z, x, y)));
        assert(c.voxel(z, x, y) == spec_flushed_voxel(b.voxel(z, x, y)));
    }
}

} // verus!
