//! Layers: the terrain categories a generation run can paint, the seed each
//! one samples its field with, and the painting itself.
//!
//! A layer is handed to the painter as a field of hits, one flag per tile in
//! row-major order: the flag of the tile at `(x, y)` stands at
//! `y * width + x` and is set where the layer's sampled value lies below its
//! cutoff. Painting claims the tiles that are hit and still `Land`, so of
//! several layers that hit one tile the first one applied keeps it.

use vstd::prelude::*;
use crate::map::{
    is_matrix,
    MapGrid,
    MapTile,
    MapTileIndex,
    MapTileVisualType,
    MapTileXY,
    SquareBounds,
    MAP_CHUNK_TILES_LENGTH,
};

verus! {

/// The layers of a generation run, one per terrain category that can be
/// painted.
#[derive(Clone, Copy, Debug, PartialEq, Eq, Structural)]
pub enum MapLayer {
    Terrain,
    Building,
    Water,
    LandTree,
}

impl MapLayer {
    /// The constant that sets the layer's seed apart from the base seed.
    pub open spec fn spec_seed_offset(self) -> u32 {
        match self {
            MapLayer::Terrain => 1443443,
            MapLayer::Building => 2344443,
            MapLayer::Water => 16654312,
            MapLayer::LandTree => 3453453666,
        }
    }

    /// The constant that sets the layer's seed apart from the base seed.
    #[verifier::when_used_as_spec(spec_seed_offset)]
    pub fn seed_offset(self) -> (r: u32)
        ensures
            r == self.spec_seed_offset(),
    {
        match self {
            MapLayer::Terrain => 1443443,
            MapLayer::Building => 2344443,
            MapLayer::Water => 16654312,
            MapLayer::LandTree => 3453453666,
        }
    }

    /// The terrain category the layer paints. It is never `Land`.
    pub open spec fn spec_visual_type(self) -> MapTileVisualType {
        match self {
            MapLayer::Terrain => MapTileVisualType::Terrain,
            MapLayer::Building => MapTileVisualType::Building,
            MapLayer::Water => MapTileVisualType::Water,
            MapLayer::LandTree => MapTileVisualType::LandTree,
        }
    }

    /// The terrain category the layer paints.
    #[verifier::when_used_as_spec(spec_visual_type)]
    pub fn visual_type(self) -> (r: MapTileVisualType)
        ensures
            r == self.spec_visual_type(),
            r != MapTileVisualType::Land,
    {
        match self {
            MapLayer::Terrain => MapTileVisualType::Terrain,
            MapLayer::Building => MapTileVisualType::Building,
            MapLayer::Water => MapTileVisualType::Water,
            MapLayer::LandTree => MapTileVisualType::LandTree,
        }
    }

    /// The seed of the layer's field: the base seed plus the layer's offset,
    /// wrapping around at 2^32.
    pub open spec fn spec_seed(self, base_seed: u32) -> u32 {
        ((base_seed + self.spec_seed_offset()) % 0x1_0000_0000) as u32
    }

    /// The seed of the layer's field: the base seed plus the layer's offset,
    /// wrapping around at 2^32.
    #[verifier::when_used_as_spec(spec_seed)]
    pub fn seed(self, base_seed: u32) -> (r: u32)
        ensures
            r == self.spec_seed(base_seed),
    {
        base_seed.wrapping_add(self.seed_offset())
    }
}

/// The number of chunks that a field `width` tiles wide spans, or `None`
/// where a field of that width cannot be sampled: the width must be greater
/// than zero and a whole number of chunks.
pub fn sampled_chunks(width: usize) -> (r: Option<usize>)
    ensures
        r is Some <==> width > 0 && width % (MAP_CHUNK_TILES_LENGTH as usize) == 0,
        r matches Some(chunks) ==> chunks * MAP_CHUNK_TILES_LENGTH == width,
{
    if width > 0 && width % (MAP_CHUNK_TILES_LENGTH as usize) == 0 {
        Some(width / (MAP_CHUNK_TILES_LENGTH as usize))
    } else {
        None
    }
}

/// Whether a field of hits for a grid `width` tiles wide holds a hit for the
/// tile at `(x, y)`.
pub open spec fn is_hit(hits: Seq<bool>, width: int, x: int, y: int) -> bool {
    hits[y * width + x]
}

/// A tile after a layer has passed over it: claimed for the layer's category
/// and blocked on all sides where it was hit and still `Land`, else as it
/// was.
pub open spec fn painted_tile(tile: MapTile, hit: bool, visual_type: MapTileVisualType) -> MapTile {
    if hit && tile.visual_type == MapTileVisualType::Land {
        MapTile::claimed(visual_type)
    } else {
        tile
    }
}

/// The grid after a layer has been painted onto it.
pub open spec fn painted(
    rows: Seq<Seq<MapTile>>,
    hits: Seq<bool>,
    visual_type: MapTileVisualType,
) -> Seq<Seq<MapTile>> {
    Seq::new(
        rows.len(),
        |y: int|
            Seq::new(
                rows[y].len(),
                |x: int|
                    painted_tile(
                        rows[y][x],
                        is_hit(hits, rows[y].len() as int, x, y),
                        visual_type,
                    ),
            ),
    )
}

/// Whether every tile of `now` that the painter has passed on its way to
/// `(at_x, at_y)` is painted, and every other tile is as in `rows`.
spec fn painted_up_to(
    now: Seq<Seq<MapTile>>,
    rows: Seq<Seq<MapTile>>,
    hits: Seq<bool>,
    visual_type: MapTileVisualType,
    at_x: int,
    at_y: int,
) -> bool {
    forall|x: int, y: int|
        0 <= y < rows.len() && 0 <= x < rows[y].len() ==> #[trigger] now[y][x] == (if y < at_y || (y
            == at_y && x < at_x) {
            painted_tile(rows[y][x], is_hit(hits, rows[y].len() as int, x, y), visual_type)
        } else {
            rows[y][x]
        })
}

/// A tile's place in a row-major field lies inside the field.
proof fn lemma_hit_index_in_range(x: int, y: int, width: int, height: int)
    requires
        0 <= x < width,
        0 <= y < height,
    ensures
        0 <= y * width,
        0 <= y * width + x < width * height,
{
    assert(0 <= y * width && y * width + x < width * height) by (nonlinear_arith)
        requires
            0 <= x < width,
            0 <= y < height,
    ;
}

/// Paints one tile: where it is hit and still `Land`, it gets the layer's
/// category and is blocked on all sides.
fn paint_tile(
    map_grid: &mut MapGrid,
    x: MapTileIndex,
    y: MapTileIndex,
    hit: bool,
    visual_type: &MapTileVisualType,
)
    requires
        old(map_grid).wf(),
        x < old(map_grid).width(),
        y < old(map_grid).height(),
    ensures
        final(map_grid).wf(),
        final(map_grid).chunks() == old(map_grid).chunks(),
        final(map_grid).bounds() == old(map_grid).bounds(),
        forall|i: int, j: int|
            0 <= j < old(map_grid).height() && 0 <= i < old(map_grid).width()
                ==> #[trigger] final(map_grid)@[j][i] == (if i == x && j == y {
                painted_tile(old(map_grid)@[j][i], hit, *visual_type)
            } else {
                old(map_grid)@[j][i]
            }),
{
    if hit {
        let tile = map_grid.get_tile_mut(&MapTileXY { x, y }).unwrap();
        if tile.visual_type == MapTileVisualType::Land {
            tile.set_visual_type(visual_type).set_walkability_blocked(&SquareBounds::all());
        }
    }
}

/// Paints a layer onto the grid: every tile that the field of hits marks and
/// that is still `Land` gets the given category and is blocked on all four
/// sides. Every other tile stays exactly as it was.
pub fn paint_layer(map_grid: &mut MapGrid, hits: &[bool], visual_type: &MapTileVisualType)
    requires
        old(map_grid).wf(),
        hits@.len() == old(map_grid).width() * old(map_grid).height(),
    ensures
        final(map_grid).wf(),
        final(map_grid).chunks() == old(map_grid).chunks(),
        final(map_grid).bounds() == old(map_grid).bounds(),
        final(map_grid)@ == painted(old(map_grid)@, hits@, *visual_type),
{
    let width: MapTileIndex = map_grid.get_tiles_bounds().x;
    let height: MapTileIndex = map_grid.get_tiles_bounds().y;
    let count: usize = hits.len();
    let ghost rows = map_grid@;
    let mut y: MapTileIndex = 0;
    while y < height
        invariant
            y <= height,
            count == hits@.len(),
            map_grid.wf(),
            map_grid.chunks() == old(map_grid).chunks(),
            map_grid.bounds() == old(map_grid).bounds(),
            width == map_grid.width(),
            height == map_grid.height(),
            hits@.len() == width * height,
            is_matrix(rows, width as int, height as int),
            painted_up_to(map_grid@, rows, hits@, *visual_type, 0, y as int),
        decreases height - y,
    {
        let mut x: MapTileIndex = 0;
        while x < width
            invariant
                x <= width,
                y < height,
                count == hits@.len(),
                map_grid.wf(),
                map_grid.chunks() == old(map_grid).chunks(),
                map_grid.bounds() == old(map_grid).bounds(),
                width == map_grid.width(),
                height == map_grid.height(),
                hits@.len() == width * height,
                is_matrix(rows, width as int, height as int),
                painted_up_to(map_grid@, rows, hits@, *visual_type, x as int, y as int),
            decreases width - x,
        {
            proof {
                lemma_hit_index_in_range(x as int, y as int, width as int, height as int);
            }
            let hit = hits[(y as usize) * (width as usize) + (x as usize)];
            paint_tile(map_grid, x, y, hit, visual_type);
            x = x + 1;
        }
        y = y + 1;
    }
    assert(map_grid@ =~~= painted(rows, hits@, *visual_type));
}

/// Whether a tile is as painting leaves it: `Land` and open on all sides, or
/// claimed and blocked on all sides.
pub open spec fn is_fresh_tile(tile: MapTile) -> bool {
    if tile.visual_type == MapTileVisualType::Land {
        tile.walkability_blocked == SquareBounds::none()
    } else {
        tile.walkability_blocked == SquareBounds::all()
    }
}

/// Whether every tile of the grid is as painting leaves it.
pub open spec fn is_fresh(rows: Seq<Seq<MapTile>>, width: int, height: int) -> bool {
    &&& is_matrix(rows, width, height)
    &&& forall|x: int, y: int|
        0 <= x < width && 0 <= y < height ==> is_fresh_tile(#[trigger] rows[y][x])
}

/// The grid after a run of layers, each given by its kind and its field of
/// hits, has been painted onto it in order.
pub open spec fn painted_all(
    rows: Seq<Seq<MapTile>>,
    layers: Seq<(MapLayer, Seq<bool>)>,
) -> Seq<Seq<MapTile>>
    decreases layers.len(),
{
    if layers.len() == 0 {
        rows
    } else {
        painted(
            painted_all(rows, layers.drop_last()),
            layers.last().1,
            layers.last().0.spec_visual_type(),
        )
    }
}

/// Painting keeps the shape of the grid, and a grid that is as painting
/// leaves it stays so under any category but `Land`.
pub proof fn lemma_painted_keeps_fresh(
    rows: Seq<Seq<MapTile>>,
    width: int,
    height: int,
    hits: Seq<bool>,
    visual_type: MapTileVisualType,
)
    requires
        is_matrix(rows, width, height),
    ensures
        is_matrix(painted(rows, hits, visual_type), width, height),
        is_fresh(rows, width, height) && visual_type != MapTileVisualType::Land ==> is_fresh(
            painted(rows, hits, visual_type),
            width,
            height,
        ),
{
    let after = painted(rows, hits, visual_type);
    assert forall|x: int, y: int| 0 <= x < width && 0 <= y < height implies #[trigger] after[y][x]
        == painted_tile(rows[y][x], is_hit(hits, width, x, y), visual_type) by {}
}

/// A run of layers keeps the shape of the grid, and a grid that is as
/// painting leaves it stays so.
pub proof fn lemma_painted_all_keeps_fresh(
    rows: Seq<Seq<MapTile>>,
    width: int,
    height: int,
    layers: Seq<(MapLayer, Seq<bool>)>,
)
    requires
        is_matrix(rows, width, height),
    ensures
        is_matrix(painted_all(rows, layers), width, height),
        is_fresh(rows, width, height) ==> is_fresh(painted_all(rows, layers), width, height),
    decreases layers.len(),
{
    if layers.len() > 0 {
        lemma_painted_all_keeps_fresh(rows, width, height, layers.drop_last());
        lemma_painted_keeps_fresh(
            painted_all(rows, layers.drop_last()),
            width,
            height,
            layers.last().1,
            layers.last().0.spec_visual_type(),
        );
    }
}

/// A tile that no layer of the run hits, or that is not `Land` to begin
/// with, comes out of the run exactly as it went in.
pub proof fn lemma_unclaimed_tile_kept(
    rows: Seq<Seq<MapTile>>,
    width: int,
    height: int,
    layers: Seq<(MapLayer, Seq<bool>)>,
    x: int,
    y: int,
)
    requires
        is_matrix(rows, width, height),
        0 <= x < width,
        0 <= y < height,
        rows[y][x].visual_type != MapTileVisualType::Land || forall|k: int|
            0 <= k < layers.len() ==> !is_hit(#[trigger] layers[k].1, width, x, y),
    ensures
        painted_all(rows, layers)[y][x] == rows[y][x],
    decreases layers.len(),
{
    if layers.len() > 0 {
        let earlier = layers.drop_last();
        assert forall|k: int| 0 <= k < earlier.len() implies #[trigger] earlier[k]
            == layers[k] by {}
        lemma_unclaimed_tile_kept(rows, width, height, earlier, x, y);
        lemma_painted_all_keeps_fresh(rows, width, height, earlier);
        assert(layers.last() == layers[layers.len() - 1]);
    }
}

/// Precedence: a `Land` tile that several layers of a run hit gets the
/// category of the first of them, whatever the later ones are.
pub proof fn lemma_first_hit_wins(
    rows: Seq<Seq<MapTile>>,
    width: int,
    height: int,
    layers: Seq<(MapLayer, Seq<bool>)>,
    x: int,
    y: int,
    first: int,
)
    requires
        is_matrix(rows, width, height),
        0 <= x < width,
        0 <= y < height,
        rows[y][x].visual_type == MapTileVisualType::Land,
        0 <= first < layers.len(),
        is_hit(layers[first].1, width, x, y),
        forall|k: int| 0 <= k < first ==> !is_hit(#[trigger] layers[k].1, width, x, y),
    ensures
        painted_all(rows, layers)[y][x] == MapTile::claimed(layers[first].0.spec_visual_type()),
    decreases layers.len(),
{
    let earlier = layers.drop_last();
    assert forall|k: int| 0 <= k < earlier.len() implies #[trigger] earlier[k] == layers[k] by {}
    lemma_painted_all_keeps_fresh(rows, width, height, earlier);
    assert(layers.last() == layers[layers.len() - 1]);
    if first == layers.len() - 1 {
        lemma_unclaimed_tile_kept(rows, width, height, earlier, x, y);
    } else {
        lemma_first_hit_wins(rows, width, height, earlier, x, y, first);
    }
}

/// Whether two fields of hits agree on every tile of a grid of the given
/// size.
pub open spec fn same_hits(hits: Seq<bool>, others: Seq<bool>, width: int, height: int) -> bool {
    forall|x: int, y: int|
        0 <= x < width && 0 <= y < height ==> #[trigger] is_hit(hits, width, x, y) == is_hit(
            others,
            width,
            x,
            y,
        )
}

/// Whether two runs of layers agree layer by layer, in kind and in every
/// hit.
pub open spec fn same_layers(
    layers: Seq<(MapLayer, Seq<bool>)>,
    others: Seq<(MapLayer, Seq<bool>)>,
    width: int,
    height: int,
) -> bool {
    &&& layers.len() == others.len()
    &&& forall|k: int|
        0 <= k < layers.len() ==> (#[trigger] layers[k]).0 == others[k].0 && same_hits(
            layers[k].1,
            others[k].1,
            width,
            height,
        )
}

/// Determinism: two runs of layers that agree layer by layer, in kind and in
/// every hit, paint the same grid.
pub proof fn lemma_same_layers_same_grid(
    rows: Seq<Seq<MapTile>>,
    width: int,
    height: int,
    layers: Seq<(MapLayer, Seq<bool>)>,
    others: Seq<(MapLayer, Seq<bool>)>,
)
    requires
        is_matrix(rows, width, height),
        same_layers(layers, others, width, height),
    ensures
        painted_all(rows, layers) == painted_all(rows, others),
    decreases layers.len(),
{
    if layers.len() > 0 {
        let earlier = layers.drop_last();
        let other_earlier = others.drop_last();
        assert forall|k: int| 0 <= k < earlier.len() implies (#[trigger] earlier[k]).0
            == other_earlier[k].0 && same_hits(earlier[k].1, other_earlier[k].1, width, height) by {
            assert(earlier[k] == layers[k]);
            assert(other_earlier[k] == others[k]);
        }
        lemma_same_layers_same_grid(rows, width, height, earlier, other_earlier);
        lemma_painted_all_keeps_fresh(rows, width, height, earlier);
        let before = painted_all(rows, earlier);
        let last = layers[layers.len() - 1];
        let other_last = others[others.len() - 1];
        assert(last.0 == other_last.0);
        let one = painted(before, last.1, last.0.spec_visual_type());
        let two = painted(before, other_last.1, other_last.0.spec_visual_type());
        assert forall|y: int| 0 <= y < height implies #[trigger] one[y] =~= two[y] by {
            assert forall|x: int| 0 <= x < width implies one[y][x] == two[y][x] by {
                assert(is_hit(last.1, width, x, y) == is_hit(other_last.1, width, x, y));
            }
        }
        assert(one =~= two);
    }
}

} // verus!
