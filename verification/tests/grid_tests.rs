use voxel_water::grid::{build, add_zeros_to_edges, ControlPoint, Grid, GridingAlgo};
use voxel_water::parse::{parse_points, Error};

#[test]
fn two_component_line_is_rejected() {
    let r = parse_points(b"1.0,2.0");
    match r {
        Err(Error::PointDoesNotHave3Components { name }) => {
            assert_eq!(name, b"1.0,2.0".to_vec());
        }
        other => panic!("expected a three-component error, got {:?}", other),
    }
}

#[test]
fn valid_points_parse_to_milli_units() {
    let r = parse_points(b"0.5, 1.0, -0.5\n-1,0,1").unwrap();
    assert_eq!(r.len(), 2);
    assert_eq!((r[0].x, r[0].y, r[0].z), (500, 1000, -500));
    assert_eq!((r[1].x, r[1].y, r[1].z), (-1000, 0, 1000));
}

#[test]
fn fraction_is_truncated_after_three_digits() {
    let r = parse_points(b"0.12345,0,0").unwrap();
    assert_eq!(r[0].x, 123);
}

#[test]
fn dot_edge_forms_parse() {
    let r = parse_points(b".5,1.,0").unwrap();
    assert_eq!((r[0].x, r[0].y, r[0].z), (500, 1000, 0));
}

#[test]
fn lone_dot_is_not_numeric() {
    match parse_points(b".,0,0") {
        Err(Error::ComponentIsNotNumeric { name }) => assert_eq!(name, b".".to_vec()),
        other => panic!("expected a numeric error, got {:?}", other),
    }
}

#[test]
fn non_text_byte_is_rejected() {
    match parse_points(b"1,\x011,1") {
        Err(Error::UnableConvertFileToString { name }) => {
            assert_eq!(name, b"1,\x011,1".to_vec());
        }
        other => panic!("expected a text error, got {:?}", other),
    }
}

#[test]
fn non_numeric_component_is_rejected() {
    match parse_points(b"abc,1,0") {
        Err(Error::ComponentIsNotNumeric { name }) => assert_eq!(name, b"abc".to_vec()),
        other => panic!("expected a numeric error, got {:?}", other),
    }
}

#[test]
fn out_of_range_x_is_rejected() {
    match parse_points(b"2.0,0,0") {
        Err(Error::ComponentXNotValid { name }) => assert_eq!(name, b"2.0".to_vec()),
        other => panic!("expected an x range error, got {:?}", other),
    }
}

#[test]
fn out_of_range_y_is_rejected() {
    match parse_points(b"0,-0.5,0") {
        Err(Error::ComponentYNotValid { name }) => assert_eq!(name, b"-0.5".to_vec()),
        other => panic!("expected a y range error, got {:?}", other),
    }
}

#[test]
fn out_of_range_z_is_rejected() {
    match parse_points(b"0,0,-1.5") {
        Err(Error::ComponentZNotValid { name }) => assert_eq!(name, b"-1.5".to_vec()),
        other => panic!("expected a z range error, got {:?}", other),
    }
}

#[test]
fn huge_component_is_out_of_range() {
    match parse_points(b"99999999999999999999,0,0") {
        Err(Error::ComponentXNotValid { .. }) => {}
        other => panic!("expected an x range error, got {:?}", other),
    }
}

#[test]
fn component_count_is_checked_before_ranges() {
    // the first line is out of range, the second is short: the shape
    // check of the whole file runs first
    match parse_points(b"2.0,0,0\n1,1") {
        Err(Error::PointDoesNotHave3Components { name }) => assert_eq!(name, b"1,1".to_vec()),
        other => panic!("expected a three-component error, got {:?}", other),
    }
}

#[test]
fn build_keeps_heights_in_range() {
    let pts = vec![
        ControlPoint { x: 0, y: 1000, z: 0 },
        ControlPoint { x: -500, y: 250, z: 500 },
        ControlPoint { x: 900, y: 700, z: -900 },
    ];
    for algo in [GridingAlgo::RadialBasisFunction, GridingAlgo::Kriging] {
        let g = build(&pts, 20, algo);
        assert_eq!(g.len(), 20);
        for row in &g {
            assert_eq!(row.len(), 20);
            for &h in row {
                assert!(h <= 1000);
            }
        }
    }
}

#[test]
fn build_single_cell_inverse_distance_average() {
    // one control point: the normalized average equals its height
    let pts = vec![ControlPoint { x: 0, y: 1000, z: 0 }];
    let g = build(&pts, 1, GridingAlgo::Kriging);
    assert_eq!(g[0][0], 1000);
}

#[test]
fn build_radial_far_point_contributes_nothing() {
    // the single cell centre is at (-1, -1); a point at (1, 1) is far
    // outside the kernel radius, so the maximum weighted height is zero
    let pts = vec![ControlPoint { x: 1000, y: 1000, z: 1000 }];
    let g = build(&pts, 1, GridingAlgo::RadialBasisFunction);
    assert_eq!(g[0][0], 0);
}

#[test]
fn build_is_deterministic() {
    let pts = vec![
        ControlPoint { x: 100, y: 800, z: -200 },
        ControlPoint { x: -700, y: 300, z: 600 },
    ];
    let a = build(&pts, 16, GridingAlgo::RadialBasisFunction);
    let b = build(&pts, 16, GridingAlgo::RadialBasisFunction);
    assert_eq!(a, b);
}

#[test]
fn zero_ring_pads_the_boundary() {
    let pts = vec![ControlPoint { x: 0, y: 500, z: 0 }];
    let padded = add_zeros_to_edges(&pts, 10);
    assert_eq!(padded.len(), 41);
    for p in padded.iter().take(40) {
        assert_eq!(p.y, 0);
        assert!(p.x == -1000 || p.x == 1000 || p.z == -1000 || p.z == 1000);
    }
    assert_eq!((padded[40].x, padded[40].y, padded[40].z), (0, 500, 0));
}

#[test]
fn grid_new_builds_from_text() {
    let g = Grid::new(b"0,1,0\n0.5,0.5,0.5", 12, GridingAlgo::Kriging).unwrap();
    let data = g.get_data();
    assert_eq!(data.len(), 12);
    for row in data {
        assert_eq!(row.len(), 12);
        for &h in row {
            assert!(h <= 1000);
        }
    }
}

#[test]
fn grid_new_propagates_parse_errors() {
    match Grid::new(b"1.0,2.0", 12, GridingAlgo::Kriging) {
        Err(Error::PointDoesNotHave3Components { .. }) => {}
        other => panic!("expected a three-component error, got {:?}", other.map(|_| ())),
    }
}

#[test]
fn update_grid_changes_size() {
    let mut g = Grid::new(b"0,1,0", 12, GridingAlgo::Kriging).unwrap();
    g.update_grid(8, GridingAlgo::RadialBasisFunction);
    assert_eq!(g.get_data().len(), 8);
}
