use map_gen::generator::MapGenerator;
use map_gen::layer::{paint_layer, sampled_chunks, MapLayer};
use map_gen::map::{MapChunkXY, MapGrid, MapTile, MapTileVisualType, MapTileXY, SquareBounds};

fn mask(width: usize, height: usize, hits: &[(usize, usize)]) -> Vec<bool> {
    let mut mask = vec![false; width * height];
    for (x, y) in hits {
        mask[y * width + x] = true;
    }
    mask
}

fn claimed(visual_type: MapTileVisualType) -> MapTile {
    MapTile { visual_type, walkability_blocked: SquareBounds::all() }
}

fn blank() -> MapTile {
    MapTile { visual_type: MapTileVisualType::Land, walkability_blocked: SquareBounds::none() }
}

#[test]
fn seed_offsets_are_the_table() {
    assert_eq!(MapLayer::Terrain.seed_offset(), 1443443);
    assert_eq!(MapLayer::Building.seed_offset(), 2344443);
    assert_eq!(MapLayer::Water.seed_offset(), 16654312);
    assert_eq!(MapLayer::LandTree.seed_offset(), 3453453666);
}

#[test]
fn layer_seed_adds_the_offset() {
    assert_eq!(MapLayer::Terrain.seed(453537), 1896980);
    assert_eq!(MapLayer::Building.seed(453537), 2797980);
    assert_eq!(MapLayer::Water.seed(453537), 17107849);
    assert_eq!(MapLayer::LandTree.seed(453537), 3453907203);
    assert_eq!(MapLayer::Terrain.seed(0), 1443443);
}

#[test]
fn layer_seed_wraps_around() {
    assert_eq!(MapLayer::LandTree.seed(u32::MAX), 3453453665);
    assert_eq!(MapLayer::LandTree.seed(841513630), 0);
    assert_eq!(MapLayer::Terrain.seed(u32::MAX - 1443442), 0);
    assert_eq!(MapLayer::Water.seed(4294967295), 16654311);
}

#[test]
fn generator_hands_out_layer_seeds() {
    let generator = MapGenerator::new(453537, &MapChunkXY { x: 1, y: 1 });
    assert_eq!(generator.layer_seed(MapLayer::Terrain), 1896980);
    assert_eq!(generator.layer_seed(MapLayer::LandTree), 3453907203);
    let generator = MapGenerator::new(u32::MAX, &MapChunkXY { x: 1, y: 1 });
    assert_eq!(generator.layer_seed(MapLayer::Building), 2344442);
}

#[test]
fn layers_paint_their_own_category() {
    assert_eq!(MapLayer::Terrain.visual_type(), MapTileVisualType::Terrain);
    assert_eq!(MapLayer::Building.visual_type(), MapTileVisualType::Building);
    assert_eq!(MapLayer::Water.visual_type(), MapTileVisualType::Water);
    assert_eq!(MapLayer::LandTree.visual_type(), MapTileVisualType::LandTree);
}

#[test]
fn sampled_chunks_of_whole_chunks() {
    assert_eq!(sampled_chunks(16), Some(1));
    assert_eq!(sampled_chunks(32), Some(2));
    assert_eq!(sampled_chunks(96), Some(6));
}

#[test]
fn width_that_is_no_multiple_of_the_chunk_length_is_rejected() {
    assert_eq!(sampled_chunks(0), None);
    assert_eq!(sampled_chunks(1), None);
    assert_eq!(sampled_chunks(15), None);
    assert_eq!(sampled_chunks(17), None);
    assert_eq!(sampled_chunks(33), None);
    assert_eq!(sampled_chunks(usize::MAX), None);
}

#[test]
fn rejected_width_leaves_the_grid_alone() {
    let grid = MapGrid::new(&MapChunkXY { x: 1, y: 1 });
    let width = grid.get_tiles_bounds().x as usize + 1;
    assert_eq!(sampled_chunks(width), None);
    for y in 0..16 {
        for x in 0..16 {
            assert_eq!(*grid.get_tile(&MapTileXY { x, y }).unwrap(), blank());
        }
    }
}

#[test]
fn paint_layer_claims_hit_land_tiles_only() {
    let mut grid = MapGrid::new(&MapChunkXY { x: 1, y: 1 });
    let hits = mask(16, 16, &[(0, 0), (3, 1), (15, 15), (1, 3)]);
    paint_layer(&mut grid, &hits, &MapTileVisualType::Water);
    for y in 0..16u32 {
        for x in 0..16u32 {
            let tile = *grid.get_tile(&MapTileXY { x, y }).unwrap();
            if hits[(y * 16 + x) as usize] {
                assert_eq!(tile, claimed(MapTileVisualType::Water));
            } else {
                assert_eq!(tile, blank());
            }
        }
    }
    assert_eq!(*grid.get_tile(&MapTileXY { x: 3, y: 1 }).unwrap(), claimed(MapTileVisualType::Water));
    assert_eq!(*grid.get_tile(&MapTileXY { x: 1, y: 3 }).unwrap(), claimed(MapTileVisualType::Water));
    assert_eq!(*grid.get_tile(&MapTileXY { x: 3, y: 3 }).unwrap(), blank());
}

#[test]
fn paint_layer_reads_the_field_row_by_row() {
    let mut grid = MapGrid::new(&MapChunkXY { x: 2, y: 1 });
    let mut hits = vec![false; 32 * 16];
    hits[32 * 2 + 5] = true;
    paint_layer(&mut grid, &hits, &MapTileVisualType::Building);
    assert_eq!(
        *grid.get_tile(&MapTileXY { x: 5, y: 2 }).unwrap(),
        claimed(MapTileVisualType::Building)
    );
    assert_eq!(*grid.get_tile(&MapTileXY { x: 2, y: 5 }).unwrap(), blank());
    assert_eq!(*grid.get_tile(&MapTileXY { x: 21, y: 4 }).unwrap(), blank());
}

#[test]
fn paint_layer_leaves_claimed_tiles_untouched() {
    let mut grid = MapGrid::new(&MapChunkXY { x: 1, y: 1 });
    {
        let tile = grid.get_tile_mut(&MapTileXY { x: 4, y: 4 }).unwrap();
        tile.visual_type = MapTileVisualType::Terrain;
        tile.walkability_blocked = SquareBounds { up: true, down: false, left: false, right: true };
    }
    let hits = vec![true; 256];
    paint_layer(&mut grid, &hits, &MapTileVisualType::LandTree);
    assert_eq!(
        *grid.get_tile(&MapTileXY { x: 4, y: 4 }).unwrap(),
        MapTile {
            visual_type: MapTileVisualType::Terrain,
            walkability_blocked: SquareBounds { up: true, down: false, left: false, right: true },
        }
    );
    assert_eq!(
        *grid.get_tile(&MapTileXY { x: 4, y: 5 }).unwrap(),
        claimed(MapTileVisualType::LandTree)
    );
}

#[test]
fn tiles_that_miss_the_cutoff_keep_their_blockage() {
    let mut grid = MapGrid::new(&MapChunkXY { x: 1, y: 1 });
    let odd = SquareBounds { up: false, down: true, left: true, right: false };
    grid.get_tile_mut(&MapTileXY { x: 9, y: 2 }).unwrap().set_walkability_blocked(&odd);
    let hits = vec![false; 256];
    paint_layer(&mut grid, &hits, &MapTileVisualType::Water);
    assert_eq!(
        *grid.get_tile(&MapTileXY { x: 9, y: 2 }).unwrap(),
        MapTile { visual_type: MapTileVisualType::Land, walkability_blocked: odd }
    );
}

#[test]
fn first_layer_applied_keeps_a_contested_tile() {
    let first = mask(16, 16, &[(2, 2), (3, 2)]);
    let second = mask(16, 16, &[(3, 2), (4, 2)]);
    let third = mask(16, 16, &[(2, 2), (3, 2), (4, 2), (5, 2)]);

    let mut grid = MapGrid::new(&MapChunkXY { x: 1, y: 1 });
    paint_layer(&mut grid, &first, &MapTileVisualType::Terrain);
    paint_layer(&mut grid, &second, &MapTileVisualType::Water);
    paint_layer(&mut grid, &third, &MapTileVisualType::LandTree);
    assert_eq!(*grid.get_tile(&MapTileXY { x: 2, y: 2 }).unwrap(), claimed(MapTileVisualType::Terrain));
    assert_eq!(*grid.get_tile(&MapTileXY { x: 3, y: 2 }).unwrap(), claimed(MapTileVisualType::Terrain));
    assert_eq!(*grid.get_tile(&MapTileXY { x: 4, y: 2 }).unwrap(), claimed(MapTileVisualType::Water));
    assert_eq!(*grid.get_tile(&MapTileXY { x: 5, y: 2 }).unwrap(), claimed(MapTileVisualType::LandTree));
    assert_eq!(*grid.get_tile(&MapTileXY { x: 6, y: 2 }).unwrap(), blank());

    let mut grid = MapGrid::new(&MapChunkXY { x: 1, y: 1 });
    paint_layer(&mut grid, &third, &MapTileVisualType::LandTree);
    paint_layer(&mut grid, &second, &MapTileVisualType::Water);
    paint_layer(&mut grid, &first, &MapTileVisualType::Terrain);
    for x in 2..6 {
        assert_eq!(
            *grid.get_tile(&MapTileXY { x, y: 2 }).unwrap(),
            claimed(MapTileVisualType::LandTree)
        );
    }
}

#[test]
fn generator_layers_follow_the_order_of_the_calls() {
    let everything = vec![true; 256];
    let some = mask(16, 16, &[(1, 1), (14, 14)]);

    let grid = MapGenerator::new(7, &MapChunkXY { x: 1, y: 1 })
        .with_buildings(&some)
        .with_water(&everything)
        .with_terrain(&everything)
        .with_trees(&everything)
        .generate();
    for y in 0..16 {
        for x in 0..16 {
            let expected = if (x, y) == (1, 1) || (x, y) == (14, 14) {
                MapTileVisualType::Building
            } else {
                MapTileVisualType::Water
            };
            assert_eq!(grid.get_tile(&MapTileXY { x, y }).unwrap().visual_type, expected);
        }
    }

    let grid = MapGenerator::new(7, &MapChunkXY { x: 1, y: 1 })
        .with_trees(&some)
        .with_terrain(&everything)
        .with_water(&everything)
        .with_buildings(&everything)
        .generate();
    assert_eq!(
        grid.get_tile(&MapTileXY { x: 1, y: 1 }).unwrap().visual_type,
        MapTileVisualType::LandTree
    );
    assert_eq!(
        grid.get_tile(&MapTileXY { x: 2, y: 1 }).unwrap().visual_type,
        MapTileVisualType::Terrain
    );
}

#[test]
fn with_layer_is_the_same_as_the_named_calls() {
    let hits = mask(16, 16, &[(0, 0), (8, 3), (9, 3), (8, 4)]);
    let by_kind = MapGenerator::new(1, &MapChunkXY { x: 1, y: 1 })
        .with_layer(MapLayer::Water, &hits)
        .generate();
    let by_name = MapGenerator::new(1, &MapChunkXY { x: 1, y: 1 }).with_water(&hits).generate();
    for y in 0..16 {
        for x in 0..16 {
            assert_eq!(
                by_kind.get_tile(&MapTileXY { x, y }).unwrap(),
                by_name.get_tile(&MapTileXY { x, y }).unwrap()
            );
        }
    }
}

#[test]
fn generator_reports_the_size_of_its_grid() {
    let generator = MapGenerator::new(5, &MapChunkXY { x: 3, y: 1 });
    assert_eq!(generator.get_tiles_bounds(), MapTileXY { x: 48, y: 16 });
}
