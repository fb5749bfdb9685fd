use voxel_water::voxel::{get_direction, voxelize, Direction, Voxel};

#[test]
fn opposite_directions() {
    assert_eq!(Direction::North.opposite(), Direction::South);
    assert_eq!(Direction::South.opposite(), Direction::North);
    assert_eq!(Direction::East.opposite(), Direction::West);
    assert_eq!(Direction::West.opposite(), Direction::East);
}

#[test]
fn direction_tie_break_order() {
    // all corners equal: no strict winner, the fixed order ends at West
    assert_eq!(get_direction(500, 500, 500, 500), Direction::West);
    // the top pair strictly highest pushes the water south
    assert_eq!(get_direction(900, 900, 100, 100), Direction::South);
    // the bottom pair strictly highest pushes it north
    assert_eq!(get_direction(100, 100, 900, 900), Direction::North);
    // the left pair strictly highest pushes it east
    assert_eq!(get_direction(900, 100, 900, 100), Direction::East);
    // the right pair strictly highest falls through to west
    assert_eq!(get_direction(100, 900, 100, 900), Direction::West);
}

#[test]
fn flat_grid_voxelizes_to_empty_columns() {
    let heights = vec![vec![0u32; 6]; 6];
    let g = voxelize(&heights, 3);
    assert_eq!(g.len(), 5);
    for side in &g {
        assert_eq!(side.len(), 5);
        for col in side {
            assert_eq!(col.len(), 3);
            for v in col {
                assert_eq!(*v, Voxel::Empty);
            }
        }
    }
}

#[test]
fn full_height_grid_voxelizes_to_border_stacks() {
    let heights = vec![vec![1000u32; 6]; 6];
    let g = voxelize(&heights, 3);
    // corner sum 4000, count = ceil(4000 * 2 / 4000) = 2 border cells
    for side in &g {
        for col in side {
            assert!(matches!(col[0], Voxel::Border(_)));
            assert!(matches!(col[1], Voxel::Border(_)));
            assert_eq!(col[2], Voxel::Empty);
        }
    }
}

#[test]
fn half_height_grid_voxelizes_partially() {
    let heights = vec![vec![500u32; 8]; 8];
    let g = voxelize(&heights, 4);
    // corner sum 2000, count = ceil(2000 * 3 / 4000) = 2
    for side in &g {
        for col in side {
            assert!(matches!(col[0], Voxel::Border(_)));
            assert!(matches!(col[1], Voxel::Border(_)));
            assert_eq!(col[2], Voxel::Empty);
            assert_eq!(col[3], Voxel::Empty);
        }
    }
}
