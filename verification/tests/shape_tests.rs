use voxel_water::particle_shape::{ParticleShape, TriangleIdx};
use voxel_water::vertex::generate_vertex_grid;

#[test]
fn new_shape_uses_the_canonical_corners() {
    // lattice 4 x 4 columns of 5 points; cell (x=1, y=2, z=3)
    let s = ParticleShape::new(1, 2, 3, 4, 5);
    let p0 = 3 * 4 * 5 + 1 * 5 + 2;
    assert_eq!(s.t0.i0, p0);
    assert_eq!(s.t0.i1, p0 + 5);
    assert_eq!(s.t0.i2, p0 + 5 * 5);
    assert_eq!(s.t1.i0, p0);
    assert_eq!(s.t1.i1, p0 + 4 * 5);
    assert_eq!(s.t1.i2, p0 + 5 * 5);
}

#[test]
fn shape_moves_translate_all_corners() {
    let mut s = ParticleShape::new(1, 2, 1, 4, 5);
    let base = s;
    s.move_down();
    assert_eq!(s.t0.i0, base.t0.i0 - 1);
    assert_eq!(s.t1.i2, base.t1.i2 - 1);
    let mut s2 = base;
    s2.move_east(5);
    assert_eq!(s2.t0.i0, base.t0.i0 + 5);
    let mut s3 = base;
    s3.move_west(5);
    assert_eq!(s3.t0.i1, base.t0.i1 - 5);
    let mut s4 = base;
    s4.move_south(4, 5);
    assert_eq!(s4.t1.i1, base.t1.i1 + 20);
    let mut s5 = base;
    s5.move_north(4, 5);
    assert_eq!(s5.t1.i0, base.t1.i0 - 20);
}

#[test]
fn a_move_down_then_east_equals_the_shape_of_the_target_cell() {
    let mut s = ParticleShape::new(1, 2, 1, 6, 4);
    s.move_down();
    s.move_east(4);
    assert_eq!(s, ParticleShape::new(2, 1, 1, 6, 4));
}

#[test]
fn triangle_moves_shift_each_index() {
    let mut t = TriangleIdx { i0: 100, i1: 101, i2: 102 };
    t.move_south(30);
    assert_eq!((t.i0, t.i1, t.i2), (130, 131, 132));
    t.move_north(30);
    assert_eq!((t.i0, t.i1, t.i2), (100, 101, 102));
    t.move_east(6);
    assert_eq!((t.i0, t.i1, t.i2), (106, 107, 108));
    t.move_west(6);
    assert_eq!((t.i0, t.i1, t.i2), (100, 101, 102));
    t.move_down();
    assert_eq!((t.i0, t.i1, t.i2), (99, 100, 101));
}

#[test]
fn vertex_lattice_spans_the_domain() {
    let v = generate_vertex_grid(3, 2);
    assert_eq!(v.len(), 3 * 3 * 2);
    // order is (z, x, y); the first point is the near low corner
    assert_eq!((v[0].x, v[0].y, v[0].z), (-1000, 0, -1000));
    // one step up the column only raises y
    assert_eq!((v[1].x, v[1].y, v[1].z), (-1000, 1000, -1000));
    // one column east only moves x
    assert_eq!((v[2].x, v[2].y, v[2].z), (0, 0, -1000));
    // the last point is the far high corner
    let last = v[v.len() - 1];
    assert_eq!((last.x, last.y, last.z), (1000, 1000, 1000));
}
