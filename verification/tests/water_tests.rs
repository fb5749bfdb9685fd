use voxel_water::voxel::{Direction, Voxel};
use voxel_water::water::Water;

fn flat(n: usize) -> Vec<Vec<u32>> {
    vec![vec![0u32; n]; n]
}

#[test]
fn new_water_is_empty_and_level_zero() {
    let w = Water::new(&flat(12), 1);
    assert_eq!(w.active_count(), 0);
    assert_eq!(w.level_now(), 0);
    assert_eq!(w.side_len(), 11);
    assert_eq!(w.height_len(), 6);
}

#[test]
fn gravity_moves_a_particle_straight_down() {
    // flat terrain, one particle near the top: every tick it falls one
    // cell, never sideways, until it reaches the floor
    let mut w = Water::new(&flat(12), 7);
    let h = w.height_len();
    assert!(w.inject_particle(5, h - 2, 5));
    for tick in 0..(h - 2) {
        let l = w.particle_location(0);
        assert_eq!((l.x, l.y, l.z), (5, h - 2 - tick, 5));
        w.modulate();
    }
    let l = w.particle_location(0);
    assert_eq!((l.x, l.y, l.z), (5, 0, 5));
}

#[test]
fn inject_into_occupied_cell_fails() {
    let mut w = Water::new(&flat(12), 3);
    assert!(w.inject_particle(2, 3, 2));
    assert!(!w.inject_particle(2, 3, 2));
    assert_eq!(w.active_count(), 1);
}

#[test]
fn flush_clears_all_water() {
    let mut w = Water::new(&flat(12), 11);
    w.add_wave_particles(Direction::North);
    w.increase_water_level();
    w.modulate();
    assert!(w.active_count() > 0);
    w.flush();
    assert_eq!(w.active_count(), 0);
    assert_eq!(w.level_now(), 0);
    let s = w.side_len();
    let h = w.height_len();
    for z in 0..s {
        for x in 0..s {
            for y in 0..h {
                assert!(!matches!(w.voxel_at(z, x, y), Voxel::Water(_, _)));
            }
        }
    }
}

#[test]
fn flush_is_idempotent() {
    let mut w = Water::new(&flat(10), 13);
    w.add_wave_particles(Direction::East);
    w.flush();
    let s = w.side_len();
    let h = w.height_len();
    let mut before: Vec<Voxel> = Vec::new();
    for z in 0..s {
        for x in 0..s {
            for y in 0..h {
                before.push(w.voxel_at(z, x, y));
            }
        }
    }
    let level_before = w.level_now();
    w.flush();
    assert_eq!(w.level_now(), level_before);
    assert_eq!(w.active_count(), 0);
    let mut k = 0;
    for z in 0..s {
        for x in 0..s {
            for y in 0..h {
                assert_eq!(w.voxel_at(z, x, y), before[k]);
                k += 1;
            }
        }
    }
}

#[test]
fn water_level_never_exceeds_height_minus_two() {
    let mut w = Water::new(&flat(12), 5);
    let h = w.height_len();
    for _ in 0..(3 * h) {
        w.increase_water_level();
        w.add_rain_particles();
        w.modulate();
        assert!(w.level_now() <= h - 2);
    }
}

#[test]
fn quads_match_the_canonical_formula_after_ticks() {
    let mut w = Water::new(&flat(12), 17);
    w.add_wave_particles(Direction::West);
    w.add_rain_particles();
    let lat = (w.side_len() + 1) as u32;
    let h = w.height_len() as u32;
    for _ in 0..8 {
        w.modulate();
        for i in 0..w.active_count() {
            let l = w.particle_location(i);
            let q = w.particle_quad(i);
            let p0 = (l.z as u32) * lat * h + (l.x as u32) * h + (l.y as u32);
            assert_eq!(q.t0.i0, p0);
            assert_eq!(q.t0.i1, p0 + h);
            assert_eq!(q.t0.i2, p0 + h * (lat + 1));
            assert_eq!(q.t1.i0, p0);
            assert_eq!(q.t1.i1, p0 + h * lat);
            assert_eq!(q.t1.i2, p0 + h * (lat + 1));
        }
    }
}

#[test]
fn north_wave_fills_the_near_slab_with_south_water() {
    let mut w = Water::new(&flat(12), 23);
    w.add_wave_particles(Direction::North);
    let s = w.side_len();
    let h = w.height_len();
    let y_hi = h / 3 * 2;
    assert_eq!(w.active_count(), s * y_hi);
    for x in 0..s {
        for y in 0..h {
            let v = w.voxel_at(0, x, y);
            if y < y_hi {
                match v {
                    Voxel::Water(d, e) => {
                        assert_eq!(d, Direction::South);
                        assert!(e > 0);
                    }
                    other => panic!("expected water in the slab, got {:?}", other),
                }
            } else {
                assert_eq!(v, Voxel::Empty);
            }
        }
    }
    // away from the slab nothing changed
    for x in 0..s {
        for y in 0..h {
            assert_eq!(w.voxel_at(2, x, y), Voxel::Empty);
        }
    }
}

#[test]
fn rain_lands_near_the_top() {
    let mut w = Water::new(&flat(12), 29);
    w.add_rain_particles();
    let h = w.height_len();
    for i in 0..w.active_count() {
        let l = w.particle_location(i);
        assert_eq!(l.y, h - 2);
    }
}

#[test]
fn increase_water_level_fills_the_new_level() {
    let mut w = Water::new(&flat(12), 31);
    w.increase_water_level();
    assert_eq!(w.level_now(), 1);
    let s = w.side_len();
    assert_eq!(w.active_count(), s * s);
    for z in 0..s {
        for x in 0..s {
            assert!(matches!(w.voxel_at(z, x, 1), Voxel::Water(_, _)));
        }
    }
}

#[test]
fn geometry_has_one_quad_per_particle() {
    let mut w = Water::new(&flat(12), 37);
    w.add_wave_particles(Direction::South);
    let (verts, idx) = w.geometry();
    let lat = w.side_len() + 1;
    let h = w.height_len();
    assert_eq!(verts.len(), lat * lat * h);
    assert_eq!(idx.len(), 6 * w.active_count());
    // corner vertices of the lattice box, in milli-units
    assert_eq!((verts[0].x, verts[0].y, verts[0].z), (-1000, 0, -1000));
    let last = verts[verts.len() - 1];
    assert_eq!((last.x, last.y, last.z), (1000, 1000, 1000));
    // the first quad's indices are the first six entries
    if w.active_count() > 0 {
        let q = w.particle_quad(0);
        assert_eq!(idx[0], q.t0.i0);
        assert_eq!(idx[1], q.t0.i1);
        assert_eq!(idx[2], q.t0.i2);
        assert_eq!(idx[3], q.t1.i0);
        assert_eq!(idx[4], q.t1.i1);
        assert_eq!(idx[5], q.t1.i2);
    }
}

#[test]
fn set_grid_restarts_the_simulation() {
    let mut w = Water::new(&flat(12), 41);
    w.add_wave_particles(Direction::West);
    w.increase_water_level();
    w.set_grid(&flat(12));
    assert_eq!(w.active_count(), 0);
    assert_eq!(w.level_now(), 0);
    let s = w.side_len();
    let h = w.height_len();
    for z in 0..s {
        for x in 0..s {
            for y in 0..h {
                assert_eq!(w.voxel_at(z, x, y), Voxel::Empty);
            }
        }
    }
}

#[test]
fn terrain_borders_carry_flow_directions() {
    // a sloped terrain: higher in the south, so borders push north
    let n = 12;
    let mut heights = vec![vec![0u32; n]; n];
    for (z, row) in heights.iter_mut().enumerate() {
        for h in row.iter_mut() {
            *h = (z as u32) * 1000 / (n as u32 - 1);
        }
    }
    let w = Water::new(&heights, 43);
    let s = w.side_len();
    // the southmost columns are filled with borders pointing north
    let mut found_border = false;
    for x in 0..s {
        if let Voxel::Border(d) = w.voxel_at(s - 1, x, 0) {
            assert_eq!(d, Direction::North);
            found_border = true;
        }
    }
    assert!(found_border);
}

#[test]
fn border_slope_commits_and_slides() {
    // terrain rising towards the south: the particle lands on a border
    // stack whose flow direction is north, commits to it, and slides one
    // row north on its first tick
    let n = 12;
    let mut heights = vec![vec![0u32; n]; n];
    for (z, row) in heights.iter_mut().enumerate() {
        for h in row.iter_mut() {
            *h = (z as u32) * 1000 / (n as u32 - 1);
        }
    }
    let mut w = Water::new(&heights, 47);
    assert_eq!(w.voxel_at(10, 5, 4), Voxel::Border(Direction::North));
    assert_eq!(w.voxel_at(10, 5, 5), Voxel::Empty);
    assert_eq!(w.voxel_at(9, 5, 5), Voxel::Empty);
    assert!(w.inject_particle(5, 5, 10));
    w.modulate();
    let l = w.particle_location(0);
    assert_eq!((l.x, l.y, l.z), (5, 5, 9));
    assert_eq!(w.voxel_at(9, 5, 5), Voxel::Water(Direction::North, 9));
    assert_eq!(w.voxel_at(10, 5, 5), Voxel::Empty);
}

#[test]
fn full_columns_advance_the_level_to_its_cap() {
    // solid terrain: every column is occupied at every level, so each
    // tick advances the fill level by one, clamped at height - 2
    let heights = vec![vec![1000u32; 12]; 12];
    let mut w = Water::new(&heights, 53);
    let h = w.height_len();
    assert_eq!(w.level_now(), 0);
    w.modulate();
    assert_eq!(w.level_now(), 1);
    for _ in 0..10 {
        w.modulate();
        assert!(w.level_now() <= h - 2);
    }
    assert_eq!(w.level_now(), h - 2);
}

#[test]
fn rain_on_an_empty_layer_always_adds_a_particle() {
    // flat terrain leaves the whole rain layer empty, so at least one of
    // the random drops must land
    let mut w = Water::new(&flat(12), 59);
    w.add_rain_particles();
    assert!(w.active_count() >= 1);
}

#[test]
fn filling_the_same_level_twice_adds_nothing() {
    // once the level is clamped at its cap, raising it again fills the
    // same layer, whose cells are already water
    let mut w = Water::new(&flat(12), 61);
    let h = w.height_len();
    for _ in 0..(h - 2) {
        w.increase_water_level();
    }
    assert_eq!(w.level_now(), h - 2);
    let before = w.active_count();
    w.increase_water_level();
    assert_eq!(w.level_now(), h - 2);
    assert_eq!(w.active_count(), before);
}

#[test]
fn a_tick_conserves_the_amount_of_water() {
    let mut w = Water::new(&flat(12), 67);
    w.add_wave_particles(Direction::West);
    w.add_rain_particles();
    let s = w.side_len();
    let h = w.height_len();
    let count = |w: &Water| {
        let mut c = 0usize;
        for z in 0..s {
            for x in 0..s {
                for y in 0..h {
                    if matches!(w.voxel_at(z, x, y), Voxel::Water(_, _)) {
                        c += 1;
                    }
                }
            }
        }
        c
    };
    let before = count(&w);
    for _ in 0..5 {
        w.modulate();
        assert_eq!(count(&w), before);
    }
}

#[test]
fn collision_feeds_the_occupant_below() {
    // raise the level once: the new layer is still water with no energy,
    // which never moves; a particle dropped onto it cannot fall and
    // agitates the occupant below, raising its energy by the collision
    // gain (one)
    let mut w = Water::new(&flat(12), 71);
    w.increase_water_level();
    assert!(matches!(w.voxel_at(5, 5, 1), Voxel::Water(_, 0)));
    assert!(w.inject_particle(5, 2, 5));
    w.modulate();
    match w.voxel_at(5, 5, 1) {
        Voxel::Water(_, e) => assert_eq!(e, 1),
        other => panic!("expected water below, got {:?}", other),
    }
}
