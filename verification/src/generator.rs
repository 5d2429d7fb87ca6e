//! The generator: it owns the grid while layers are painted onto it, in the
//! order in which the caller applies them, and hands the repaired grid over
//! at the end.
//!
//! The order of the layer calls is part of the input. A tile that several
//! layers hit belongs to the layer that was applied first.

use vstd::prelude::*;
use crate::layer::{
    is_fresh,
    is_fresh_tile,
    is_hit,
    lemma_first_hit_wins,
    lemma_painted_all_keeps_fresh,
    lemma_same_layers_same_grid,
    lemma_unclaimed_tile_kept,
    paint_layer,
    painted,
    painted_all,
    same_layers,
    MapLayer,
};
use crate::map::{
    blank_rows,
    is_matrix,
    MapChunkXY,
    MapGrid,
    MapTile,
    MapTileIndex,
    MapTileVisualType,
    MapTileXY,
    SquareBounds,
    MAP_CHUNK_TILES_LENGTH,
};
use crate::walkability::{
    is_enclosed,
    lemma_simplified_is_enclosed,
    lemma_simplified_keeps_categories,
    simplified,
    simplify_map_walkability_blockage,
};

verus! {

/// Builds a grid layer by layer. Its state is the base seed, the size of the
/// grid and the layers applied so far, in the order of the calls.
pub struct MapGenerator {
    seed: u32,
    map_grid: MapGrid,
    applied: Ghost<Seq<(MapLayer, Seq<bool>)>>,
}

impl MapGenerator {
    /// The base seed, from which every layer derives its own.
    pub closed spec fn seed(&self) -> u32 {
        self.seed
    }

    /// The grid as painted so far.
    pub closed spec fn grid(&self) -> MapGrid {
        self.map_grid
    }

    /// The layers applied so far, each with its field of hits, in the order
    /// of the calls.
    pub closed spec fn layers(&self) -> Seq<(MapLayer, Seq<bool>)> {
        self.applied@
    }

    /// Well-formedness: the grid is well-formed and holds exactly what the
    /// layers applied so far, in their order, have painted onto a blank grid.
    pub open spec fn wf(&self) -> bool {
        &&& self.grid().wf()
        &&& self.grid()@ == painted_all(
            blank_rows(self.grid().width(), self.grid().height()),
            self.layers(),
        )
    }

    /// Starts a generation run on a grid of the given size in chunks, every
    /// tile `Land` and open on all sides. No layer is applied yet.
    pub fn new(seed: u32, map_chunks_count: &MapChunkXY) -> (generator: Self)
        requires
            map_chunks_count.x * MAP_CHUNK_TILES_LENGTH <= MapTileIndex::MAX,
            map_chunks_count.y * MAP_CHUNK_TILES_LENGTH <= MapTileIndex::MAX,
            (map_chunks_count.x * MAP_CHUNK_TILES_LENGTH) * (map_chunks_count.y
                * MAP_CHUNK_TILES_LENGTH) <= usize::MAX,
        ensures
            generator.wf(),
            generator.seed() == seed,
            generator.grid().chunks() == *map_chunks_count,
            generator.layers() == Seq::<(MapLayer, Seq<bool>)>::empty(),
            generator.grid()@ == blank_rows(generator.grid().width(), generator.grid().height()),
    {
        MapGenerator {
            seed,
            map_grid: MapGrid::new(map_chunks_count),
            applied: Ghost(Seq::empty()),
        }
    }

    /// The size in tiles of the grid being painted, which is the size of the
    /// field that each layer samples.
    pub fn get_tiles_bounds(&self) -> (r: MapTileXY)
        ensures
            r == self.grid().bounds(),
    {
        self.map_grid.get_tiles_bounds()
    }

    /// The seed with which the given layer samples its field: the base seed
    /// plus the layer's offset, wrapping around at 2^32.
    pub fn layer_seed(&self, layer: MapLayer) -> (r: u32)
        ensures
            r == layer.spec_seed(self.seed()),
    {
        layer.seed(self.seed)
    }

    /// Paints the given layer: every tile that its field of hits marks and
    /// that no earlier layer has claimed gets the layer's category and is
    /// blocked on all sides. The layer joins the layers applied so far as
    /// the last of them.
    pub fn with_layer(self, layer: MapLayer, hits: &[bool]) -> (generator: Self)
        requires
            self.wf(),
            hits@.len() == self.grid().width() * self.grid().height(),
        ensures
            generator.wf(),
            generator.seed() == self.seed(),
            generator.grid().chunks() == self.grid().chunks(),
            generator.grid().bounds() == self.grid().bounds(),
            generator.layers() == self.layers().push((layer, hits@)),
            generator.grid()@ == painted(self.grid()@, hits@, layer.spec_visual_type()),
    {
        let mut generator = self;
        let visual_type = layer.visual_type();
        paint_layer(&mut generator.map_grid, hits, &visual_type);
        let ghost applied = self.layers().push((layer, hits@));
        generator.applied = Ghost(applied);
        assert(applied.drop_last() =~= self.layers());
        generator
    }

    /// On any land tiles that the field of hits marks, places tree tiles.
    pub fn with_trees(self, hits: &[bool]) -> (generator: Self)
        requires
            self.wf(),
            hits@.len() == self.grid().width() * self.grid().height(),
        ensures
            generator.wf(),
            generator.seed() == self.seed(),
            generator.grid().chunks() == self.grid().chunks(),
            generator.grid().bounds() == self.grid().bounds(),
            generator.layers() == self.layers().push((MapLayer::LandTree, hits@)),
            generator.grid()@ == painted(self.grid()@, hits@, MapTileVisualType::LandTree),
    {
        self.with_layer(MapLayer::LandTree, hits)
    }

    /// On any land tiles that the field of hits marks, places water tiles.
    pub fn with_water(self, hits: &[bool]) -> (generator: Self)
        requires
            self.wf(),
            hits@.len() == self.grid().width() * self.grid().height(),
        ensures
            generator.wf(),
            generator.seed() == self.seed(),
            generator.grid().chunks() == self.grid().chunks(),
            generator.grid().bounds() == self.grid().bounds(),
            generator.layers() == self.layers().push((MapLayer::Water, hits@)),
            generator.grid()@ == painted(self.grid()@, hits@, MapTileVisualType::Water),
    {
        self.with_layer(MapLayer::Water, hits)
    }

    /// On any land tiles that the field of hits marks, places terrain tiles.
    pub fn with_terrain(self, hits: &[bool]) -> (generator: Self)
        requires
            self.wf(),
            hits@.len() == self.grid().width() * self.grid().height(),
        ensures
            generator.wf(),
            generator.seed() == self.seed(),
            generator.grid().chunks() == self.grid().chunks(),
            generator.grid().bounds() == self.grid().bounds(),
            generator.layers() == self.layers().push((MapLayer::Terrain, hits@)),
            generator.grid()@ == painted(self.grid()@, hits@, MapTileVisualType::Terrain),
    {
        self.with_layer(MapLayer::Terrain, hits)
    }

    /// On any land tiles that the field of hits marks, places building
    /// tiles.
    pub fn with_buildings(self, hits: &[bool]) -> (generator: Self)
        requires
            self.wf(),
            hits@.len() == self.grid().width() * self.grid().height(),
        ensures
            generator.wf(),
            generator.seed() == self.seed(),
            generator.grid().chunks() == self.grid().chunks(),
            generator.grid().bounds() == self.grid().bounds(),
            generator.layers() == self.layers().push((MapLayer::Building, hits@)),
            generator.grid()@ == painted(self.grid()@, hits@, MapTileVisualType::Building),
    {
        self.with_layer(MapLayer::Building, hits)
    }

    /// Cleans up and returns the finalized map grid: the walkability
    /// blockage is repaired once, and the grid is handed over. It is the
    /// grid that the layers applied, in the order of the calls, generate. In
    /// it the outer ring is blocked on every side that faces outwards, every
    /// wall between two tiles of one category is open, and every wall
    /// between two claimed tiles of different categories is blocked.
    pub fn generate(self) -> (map_grid: MapGrid)
        requires
            self.wf(),
        ensures
            map_grid.wf(),
            map_grid.chunks() == self.grid().chunks(),
            map_grid.bounds() == self.grid().bounds(),
            map_grid@ == generated(map_grid.width(), map_grid.height(), self.layers()),
            is_enclosed(map_grid@, map_grid.width(), map_grid.height()),
            is_merged(map_grid@, map_grid.width(), map_grid.height()),
            is_walled(map_grid@, map_grid.width(), map_grid.height()),
    {
        let mut generator = self;
        proof {
            lemma_generated_grid(
                generator.map_grid.width(),
                generator.map_grid.height(),
                generator.applied@,
            );
        }
        simplify_map_walkability_blockage(&mut generator.map_grid);
        generator.map_grid
    }
}

/// Whether the walls between the tile at `(x, y)` and its right and upper
/// neighbours are open on both sides wherever the neighbour is of the same
/// category.
pub open spec fn merged_at(
    rows: Seq<Seq<MapTile>>,
    width: int,
    height: int,
    x: int,
    y: int,
) -> bool {
    let tile = rows[y][x];
    &&& x + 1 < width && tile.visual_type == rows[y][x + 1].visual_type
        ==> !tile.walkability_blocked.right && !rows[y][x + 1].walkability_blocked.left
    &&& y + 1 < height && tile.visual_type == rows[y + 1][x].visual_type
        ==> !tile.walkability_blocked.up && !rows[y + 1][x].walkability_blocked.down
}

/// Whether every wall inside the grid between two tiles of one category is
/// open on both sides.
pub open spec fn is_merged(rows: Seq<Seq<MapTile>>, width: int, height: int) -> bool {
    forall|x: int, y: int|
        0 <= x < width && 0 <= y < height ==> #[trigger] merged_at(rows, width, height, x, y)
}

/// Whether the walls between the tile at `(x, y)` and its right and upper
/// neighbours are blocked on both sides wherever both tiles are claimed, by
/// different categories.
pub open spec fn walled_at(
    rows: Seq<Seq<MapTile>>,
    width: int,
    height: int,
    x: int,
    y: int,
) -> bool {
    let tile = rows[y][x];
    &&& x + 1 < width && tile.visual_type != MapTileVisualType::Land && rows[y][x + 1].visual_type
        != MapTileVisualType::Land && tile.visual_type != rows[y][x + 1].visual_type
        ==> tile.walkability_blocked.right && rows[y][x + 1].walkability_blocked.left
    &&& y + 1 < height && tile.visual_type != MapTileVisualType::Land && rows[y + 1][x].visual_type
        != MapTileVisualType::Land && tile.visual_type != rows[y + 1][x].visual_type
        ==> tile.walkability_blocked.up && rows[y + 1][x].walkability_blocked.down
}

/// Whether every wall inside the grid between two claimed tiles of
/// different categories is blocked on both sides.
pub open spec fn is_walled(rows: Seq<Seq<MapTile>>, width: int, height: int) -> bool {
    forall|x: int, y: int|
        0 <= x < width && 0 <= y < height ==> #[trigger] walled_at(rows, width, height, x, y)
}

/// Merge and non-merge in a generated grid: the repair of a grid that is as
/// painting leaves it opens every wall between two tiles of one category on
/// both sides, and leaves every wall between two claimed tiles of different
/// categories blocked on both sides.
pub proof fn lemma_generated_walls(rows: Seq<Seq<MapTile>>, width: int, height: int)
    requires
        is_fresh(rows, width, height),
    ensures
        is_merged(simplified(rows), width, height),
        is_walled(simplified(rows), width, height),
{
    let after = simplified(rows);
    assert forall|x: int, y: int| 0 <= x < width && 0 <= y < height implies #[trigger] merged_at(
        after,
        width,
        height,
        x,
        y,
    ) by {
        lemma_neighbours_fresh(rows, width, height, x, y);
    }
    assert forall|x: int, y: int| 0 <= x < width && 0 <= y < height implies #[trigger] walled_at(
        after,
        width,
        height,
        x,
        y,
    ) by {
        lemma_neighbours_fresh(rows, width, height, x, y);
    }
}

/// In a grid that is as painting leaves it, so are the tile at `(x, y)` and
/// its right and upper neighbours.
proof fn lemma_neighbours_fresh(rows: Seq<Seq<MapTile>>, width: int, height: int, x: int, y: int)
    requires
        is_fresh(rows, width, height),
        0 <= x < width,
        0 <= y < height,
    ensures
        is_fresh_tile(rows[y][x]),
        x + 1 < width ==> is_fresh_tile(rows[y][x + 1]),
        y + 1 < height ==> is_fresh_tile(rows[y + 1][x]),
{
}

/// The grid that a generation run hands over: a grid `width` tiles wide and
/// `height` rows high that starts out blank, has the layers painted onto it
/// in the order given, and is repaired at the end.
pub open spec fn generated(
    width: int,
    height: int,
    layers: Seq<(MapLayer, Seq<bool>)>,
) -> Seq<Seq<MapTile>> {
    simplified(painted_all(blank_rows(width, height), layers))
}

/// Whatever layers a generation run applies, the grid it hands over has the
/// size it started with, its outer ring is blocked on every side that faces
/// outwards, every wall between two tiles of one category is open, and every
/// wall between two claimed tiles of different categories is blocked.
pub proof fn lemma_generated_grid(width: int, height: int, layers: Seq<(MapLayer, Seq<bool>)>)
    requires
        0 <= width,
        0 <= height,
    ensures
        is_matrix(generated(width, height, layers), width, height),
        is_enclosed(generated(width, height, layers), width, height),
        is_merged(generated(width, height, layers), width, height),
        is_walled(generated(width, height, layers), width, height),
{
    let blank = blank_rows(width, height);
    assert(is_fresh(blank, width, height));
    lemma_painted_all_keeps_fresh(blank, width, height, layers);
    let painted = painted_all(blank, layers);
    lemma_simplified_keeps_categories(painted, width, height);
    lemma_simplified_is_enclosed(painted, width, height);
    lemma_generated_walls(painted, width, height);
}

/// A generation run without layers hands over a grid that is all `Land` and
/// blocked on the sides of its outer ring that face outwards, and nowhere
/// else.
pub proof fn lemma_generated_without_layers(width: int, height: int, x: int, y: int)
    requires
        0 <= x < width,
        0 <= y < height,
    ensures
        generated(width, height, Seq::empty())[y][x] == (MapTile {
            visual_type: MapTileVisualType::Land,
            walkability_blocked: SquareBounds {
                up: y == height - 1,
                down: y == 0,
                left: x == 0,
                right: x == width - 1,
            },
        }),
{
    let blank = blank_rows(width, height);
    assert(painted_all(blank, Seq::empty()) == blank);
    assert(blank[y][x] == MapTile::blank());
    if x > 0 {
        assert(blank[y][x - 1] == MapTile::blank());
    }
    if y > 0 {
        assert(blank[y - 1][x] == MapTile::blank());
    }
}

/// Precedence in a generation run: a tile that one or more layers hit has,
/// in the grid handed over, the category of the first of them in the order
/// of the calls.
pub proof fn lemma_generated_first_hit_wins(
    width: int,
    height: int,
    layers: Seq<(MapLayer, Seq<bool>)>,
    x: int,
    y: int,
    first: int,
)
    requires
        0 <= x < width,
        0 <= y < height,
        0 <= first < layers.len(),
        is_hit(layers[first].1, width, x, y),
        forall|k: int| 0 <= k < first ==> !is_hit(#[trigger] layers[k].1, width, x, y),
    ensures
        generated(width, height, layers)[y][x].visual_type == layers[first].0.spec_visual_type(),
{
    let blank = blank_rows(width, height);
    lemma_first_hit_wins(blank, width, height, layers, x, y, first);
    lemma_painted_all_keeps_fresh(blank, width, height, layers);
    lemma_simplified_keeps_categories(painted_all(blank, layers), width, height);
}

/// A tile that no layer of a generation run hits is `Land` in the grid
/// handed over.
pub proof fn lemma_generated_unhit_is_land(
    width: int,
    height: int,
    layers: Seq<(MapLayer, Seq<bool>)>,
    x: int,
    y: int,
)
    requires
        0 <= x < width,
        0 <= y < height,
        forall|k: int| 0 <= k < layers.len() ==> !is_hit(#[trigger] layers[k].1, width, x, y),
    ensures
        generated(width, height, layers)[y][x].visual_type == MapTileVisualType::Land,
{
    let blank = blank_rows(width, height);
    lemma_unclaimed_tile_kept(blank, width, height, layers, x, y);
    lemma_painted_all_keeps_fresh(blank, width, height, layers);
    lemma_simplified_keeps_categories(painted_all(blank, layers), width, height);
}

/// Determinism of a generation run: two runs on grids of one size whose
/// layers agree, in kind and in every hit, hand over the same grid.
pub proof fn lemma_generated_deterministic(
    width: int,
    height: int,
    layers: Seq<(MapLayer, Seq<bool>)>,
    others: Seq<(MapLayer, Seq<bool>)>,
)
    requires
        0 <= width,
        0 <= height,
        same_layers(layers, others, width, height),
    ensures
        generated(width, height, layers) == generated(width, height, others),
{
    lemma_same_layers_same_grid(blank_rows(width, height), width, height, layers, others);
}

} // verus!
