use map_gen::map::{
    MapChunkXY, MapGrid, MapTile, MapTileVisualType, MapTileXY, SquareBounds,
    MAP_CHUNK_TILES_LENGTH,
};

#[test]
fn chunk_side_length_is_sixteen() {
    assert_eq!(MAP_CHUNK_TILES_LENGTH, 16);
}

#[test]
fn new_grid_has_tile_extents_of_chunks_times_sixteen() {
    let grid = MapGrid::new(&MapChunkXY { x: 3, y: 2 });
    assert_eq!(grid.get_chunks_bounds(), MapChunkXY { x: 3, y: 2 });
    assert_eq!(grid.get_tiles_bounds(), MapTileXY { x: 48, y: 32 });
    assert_eq!(grid.get_chunks_count(), 6);
    assert_eq!(grid.get_tiles_count(), 1536);
}

#[test]
fn new_grid_is_all_land_and_open() {
    let grid = MapGrid::new(&MapChunkXY { x: 1, y: 2 });
    for y in 0..32 {
        for x in 0..16 {
            let tile = grid.get_tile(&MapTileXY { x, y }).unwrap();
            assert_eq!(tile.visual_type, MapTileVisualType::Land);
            assert_eq!(tile.walkability_blocked, SquareBounds::none());
            assert!(!tile.walkability_blocked.is_any());
        }
    }
}

#[test]
fn empty_grid_has_no_tiles() {
    let mut grid = MapGrid::new(&MapChunkXY { x: 0, y: 4 });
    assert_eq!(grid.get_tiles_bounds(), MapTileXY { x: 0, y: 64 });
    assert_eq!(grid.get_tiles_count(), 0);
    assert_eq!(grid.get_chunks_count(), 0);
    assert!(grid.get_tile(&MapTileXY { x: 0, y: 0 }).is_none());
    assert!(grid.get_tile_mut(&MapTileXY { x: 0, y: 0 }).is_none());
}

#[test]
fn get_tile_outside_the_grid_is_none() {
    let mut grid = MapGrid::new(&MapChunkXY { x: 2, y: 1 });
    assert!(grid.get_tile(&MapTileXY { x: 31, y: 15 }).is_some());
    assert!(grid.get_tile(&MapTileXY { x: 32, y: 15 }).is_none());
    assert!(grid.get_tile(&MapTileXY { x: 31, y: 16 }).is_none());
    assert!(grid.get_tile(&MapTileXY { x: u32::MAX, y: u32::MAX }).is_none());
    assert!(grid.get_tile_mut(&MapTileXY { x: 31, y: 15 }).is_some());
    assert!(grid.get_tile_mut(&MapTileXY { x: 32, y: 0 }).is_none());
    assert!(grid.get_tile_mut(&MapTileXY { x: 0, y: 16 }).is_none());
}

#[test]
fn get_tile_mut_writes_one_tile_only() {
    let mut grid = MapGrid::new(&MapChunkXY { x: 2, y: 2 });
    {
        let tile = grid.get_tile_mut(&MapTileXY { x: 7, y: 3 }).unwrap();
        tile.visual_type = MapTileVisualType::Water;
        tile.walkability_blocked.left = true;
    }
    for y in 0..32 {
        for x in 0..32 {
            let tile = *grid.get_tile(&MapTileXY { x, y }).unwrap();
            if x == 7 && y == 3 {
                assert_eq!(
                    tile,
                    MapTile {
                        visual_type: MapTileVisualType::Water,
                        walkability_blocked: SquareBounds {
                            up: false,
                            down: false,
                            left: true,
                            right: false,
                        },
                    }
                );
            } else {
                assert_eq!(
                    tile,
                    MapTile {
                        visual_type: MapTileVisualType::Land,
                        walkability_blocked: SquareBounds::none(),
                    }
                );
            }
        }
    }
}

#[test]
fn x_and_y_are_not_swapped() {
    let mut grid = MapGrid::new(&MapChunkXY { x: 2, y: 1 });
    grid.get_tile_mut(&MapTileXY { x: 20, y: 3 })
        .unwrap()
        .set_visual_type(&MapTileVisualType::Building);
    assert_eq!(
        grid.get_tile(&MapTileXY { x: 20, y: 3 }).unwrap().visual_type,
        MapTileVisualType::Building
    );
    assert_eq!(
        grid.get_tile(&MapTileXY { x: 3, y: 4 }).unwrap().visual_type,
        MapTileVisualType::Land
    );
}

#[test]
fn tile_setters_chain_and_keep_the_other_field() {
    let mut tile = MapTile {
        visual_type: MapTileVisualType::Land,
        walkability_blocked: SquareBounds::none(),
    };
    tile.set_visual_type(&MapTileVisualType::LandTree)
        .set_walkability_blocked(&SquareBounds::all());
    assert_eq!(tile.visual_type, MapTileVisualType::LandTree);
    assert_eq!(tile.walkability_blocked, SquareBounds::all());

    tile.set_visual_type(&MapTileVisualType::Terrain);
    assert_eq!(tile.visual_type, MapTileVisualType::Terrain);
    assert_eq!(tile.walkability_blocked, SquareBounds::all());

    let only_up = SquareBounds { up: true, down: false, left: false, right: false };
    tile.set_walkability_blocked(&only_up);
    assert_eq!(tile.visual_type, MapTileVisualType::Terrain);
    assert_eq!(tile.walkability_blocked, only_up);
}

#[test]
fn square_bounds_all_none_and_any() {
    let all = SquareBounds::all();
    assert!(all.up && all.down && all.left && all.right);
    assert!(all.is_any());
    let none = SquareBounds::none();
    assert!(!none.up && !none.down && !none.left && !none.right);
    assert!(!none.is_any());
    assert!(SquareBounds { up: false, down: true, left: false, right: false }.is_any());
    assert!(SquareBounds { up: false, down: false, left: false, right: true }.is_any());
}
