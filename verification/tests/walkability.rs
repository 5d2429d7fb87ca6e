use map_gen::generator::MapGenerator;
use map_gen::layer::paint_layer;
use map_gen::map::{MapChunkXY, MapGrid, MapTile, MapTileVisualType, MapTileXY, SquareBounds};
use map_gen::walkability::simplify_map_walkability_blockage;

fn mask(width: usize, height: usize, hits: &[(usize, usize)]) -> Vec<bool> {
    let mut mask = vec![false; width * height];
    for (x, y) in hits {
        mask[y * width + x] = true;
    }
    mask
}

fn tiles_of(grid: &MapGrid) -> Vec<MapTile> {
    let bounds = grid.get_tiles_bounds();
    let mut tiles = Vec::new();
    for y in 0..bounds.y {
        for x in 0..bounds.x {
            tiles.push(*grid.get_tile(&MapTileXY { x, y }).unwrap());
        }
    }
    tiles
}

fn blocked(grid: &MapGrid, x: u32, y: u32) -> SquareBounds {
    grid.get_tile(&MapTileXY { x, y }).unwrap().walkability_blocked
}

fn bounds(up: bool, down: bool, left: bool, right: bool) -> SquareBounds {
    SquareBounds { up, down, left, right }
}

fn assert_outer_ring_blocked(grid: &MapGrid) {
    let size = grid.get_tiles_bounds();
    for y in 0..size.y {
        for x in 0..size.x {
            let sides = blocked(grid, x, y);
            if x == 0 {
                assert!(sides.left);
            }
            if x == size.x - 1 {
                assert!(sides.right);
            }
            if y == 0 {
                assert!(sides.down);
            }
            if y == size.y - 1 {
                assert!(sides.up);
            }
        }
    }
}

#[test]
fn untouched_grid_is_walled_in_at_the_edge_only() {
    let grid = MapGenerator::new(1, &MapChunkXY { x: 1, y: 1 }).generate();
    for y in 0..16 {
        for x in 0..16 {
            let tile = grid.get_tile(&MapTileXY { x, y }).unwrap();
            assert_eq!(tile.visual_type, MapTileVisualType::Land);
            assert_eq!(
                tile.walkability_blocked,
                bounds(y == 15, y == 0, x == 0, x == 15)
            );
        }
    }
    assert_eq!(blocked(&grid, 0, 0), bounds(false, true, true, false));
    assert_eq!(blocked(&grid, 15, 0), bounds(false, true, false, true));
    assert_eq!(blocked(&grid, 0, 15), bounds(true, false, true, false));
    assert_eq!(blocked(&grid, 15, 15), bounds(true, false, false, true));
    assert_eq!(blocked(&grid, 7, 7), bounds(false, false, false, false));
}

#[test]
fn walls_inside_a_region_come_down() {
    let water = mask(16, 16, &[(5, 5), (6, 5), (5, 6), (6, 6)]);
    let grid = MapGenerator::new(1, &MapChunkXY { x: 1, y: 1 }).with_water(&water).generate();
    assert_eq!(blocked(&grid, 5, 5), bounds(false, true, true, false));
    assert_eq!(blocked(&grid, 6, 5), bounds(false, true, false, true));
    assert_eq!(blocked(&grid, 5, 6), bounds(true, false, true, false));
    assert_eq!(blocked(&grid, 6, 6), bounds(true, false, false, true));
    // The land around the region stays open towards it.
    assert_eq!(blocked(&grid, 4, 5), bounds(false, false, false, false));
    assert_eq!(blocked(&grid, 7, 6), bounds(false, false, false, false));
    assert_eq!(blocked(&grid, 5, 4), bounds(false, false, false, false));
    assert_eq!(blocked(&grid, 6, 7), bounds(false, false, false, false));
}

#[test]
fn walls_between_regions_of_different_categories_stay() {
    let water = mask(16, 16, &[(5, 5), (6, 5)]);
    let terrain = mask(16, 16, &[(7, 5), (8, 5), (6, 6)]);
    let grid = MapGenerator::new(1, &MapChunkXY { x: 1, y: 1 })
        .with_water(&water)
        .with_terrain(&terrain)
        .generate();
    assert_eq!(
        grid.get_tile(&MapTileXY { x: 6, y: 5 }).unwrap().visual_type,
        MapTileVisualType::Water
    );
    assert_eq!(
        grid.get_tile(&MapTileXY { x: 7, y: 5 }).unwrap().visual_type,
        MapTileVisualType::Terrain
    );
    // water | water || terrain | terrain
    assert_eq!(blocked(&grid, 5, 5), bounds(true, true, true, false));
    assert_eq!(blocked(&grid, 6, 5), bounds(true, true, false, true));
    assert_eq!(blocked(&grid, 7, 5), bounds(true, true, true, false));
    assert_eq!(blocked(&grid, 8, 5), bounds(true, true, false, true));
    // terrain above water
    assert_eq!(blocked(&grid, 6, 6), bounds(true, true, true, true));
}

#[test]
fn region_at_the_edge_keeps_its_outer_walls() {
    let everything = vec![true; 256];
    let grid = MapGenerator::new(1, &MapChunkXY { x: 1, y: 1 }).with_trees(&everything).generate();
    for y in 0..16 {
        for x in 0..16 {
            let tile = grid.get_tile(&MapTileXY { x, y }).unwrap();
            assert_eq!(tile.visual_type, MapTileVisualType::LandTree);
            assert_eq!(
                tile.walkability_blocked,
                bounds(y == 15, y == 0, x == 0, x == 15)
            );
        }
    }
}

#[test]
fn outer_ring_is_blocked_whatever_the_layers() {
    let board: Vec<bool> = (0..32 * 48).map(|i| (i / 32 + i % 32) % 2 == 0).collect();
    let stripes: Vec<bool> = (0..32 * 48).map(|i| (i % 32) % 3 == 0).collect();
    let grid = MapGenerator::new(9, &MapChunkXY { x: 2, y: 3 })
        .with_buildings(&board)
        .with_water(&stripes)
        .generate();
    assert_eq!(grid.get_tiles_bounds(), MapTileXY { x: 32, y: 48 });
    assert_outer_ring_blocked(&grid);
}

#[test]
fn repair_keeps_categories() {
    let board: Vec<bool> = (0..256).map(|i| (i / 16 + i % 16) % 2 == 0).collect();
    let mut grid = MapGrid::new(&MapChunkXY { x: 1, y: 1 });
    paint_layer(&mut grid, &board, &MapTileVisualType::Building);
    let before = tiles_of(&grid);
    simplify_map_walkability_blockage(&mut grid);
    let after = tiles_of(&grid);
    for (old, new) in before.iter().zip(after.iter()) {
        assert_eq!(old.visual_type, new.visual_type);
    }
}

#[test]
fn lone_claimed_tiles_stay_walled() {
    // Buildings on the black squares of a chessboard touch only land.
    let board: Vec<bool> = (0..256).map(|i| (i / 16 + i % 16) % 2 == 0).collect();
    let grid = MapGenerator::new(1, &MapChunkXY { x: 1, y: 1 }).with_buildings(&board).generate();
    for y in 0..16u32 {
        for x in 0..16u32 {
            let tile = grid.get_tile(&MapTileXY { x, y }).unwrap();
            if (x + y) % 2 == 0 {
                assert_eq!(tile.visual_type, MapTileVisualType::Building);
                assert_eq!(tile.walkability_blocked, SquareBounds::all());
            } else {
                assert_eq!(tile.visual_type, MapTileVisualType::Land);
                assert_eq!(
                    tile.walkability_blocked,
                    bounds(y == 15, y == 0, x == 0, x == 15)
                );
            }
        }
    }
}

#[test]
fn repair_twice_is_repair_once() {
    let water = mask(16, 16, &[(5, 5), (6, 5), (5, 6), (0, 0), (1, 0), (15, 15), (15, 14)]);
    let terrain = mask(16, 16, &[(7, 5), (6, 6), (2, 0), (14, 15)]);
    let mut grid = MapGrid::new(&MapChunkXY { x: 1, y: 1 });
    paint_layer(&mut grid, &water, &MapTileVisualType::Water);
    paint_layer(&mut grid, &terrain, &MapTileVisualType::Terrain);
    simplify_map_walkability_blockage(&mut grid);
    let once = tiles_of(&grid);
    simplify_map_walkability_blockage(&mut grid);
    let twice = tiles_of(&grid);
    assert_eq!(once, twice);
}

#[test]
fn repair_of_a_hand_made_grid_takes_the_half_walls_as_they_are() {
    // Two land tiles side by side, only one of them blocked towards the other:
    // no wall comes down, and no flag is set.
    let mut grid = MapGrid::new(&MapChunkXY { x: 1, y: 1 });
    grid.get_tile_mut(&MapTileXY { x: 3, y: 3 }).unwrap().walkability_blocked.right = true;
    // Two land tiles one above the other, each blocked towards the other:
    // the wall comes down.
    grid.get_tile_mut(&MapTileXY { x: 8, y: 8 }).unwrap().walkability_blocked.up = true;
    grid.get_tile_mut(&MapTileXY { x: 8, y: 9 }).unwrap().walkability_blocked.down = true;
    simplify_map_walkability_blockage(&mut grid);
    assert_eq!(blocked(&grid, 3, 3), bounds(false, false, false, true));
    assert_eq!(blocked(&grid, 4, 3), bounds(false, false, false, false));
    assert_eq!(blocked(&grid, 8, 8), bounds(false, false, false, false));
    assert_eq!(blocked(&grid, 8, 9), bounds(false, false, false, false));
    assert_outer_ring_blocked(&grid);
}

#[test]
fn repair_of_an_empty_grid_does_nothing() {
    let mut grid = MapGrid::new(&MapChunkXY { x: 0, y: 2 });
    simplify_map_walkability_blockage(&mut grid);
    assert_eq!(grid.get_tiles_count(), 0);
    assert_eq!(grid.get_tiles_bounds(), MapTileXY { x: 0, y: 32 });
}
