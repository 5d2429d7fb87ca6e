//! The tile grid: terrain categories, per-edge walkability blockage, tiles,
//! coordinates and the dense grid that owns the tiles.
//!
//! A grid is modelled as a matrix of tiles, `grid@[y][x]`, with `y` counting
//! rows upwards and `x` counting columns to the right.

use vstd::prelude::*;

verus! {

/// Index of a tile along one axis.
pub type MapTileIndex = u32;

/// Index of a chunk along one axis.
pub type MapChunkIndex = u32;

/// Number of tiles along one side of a chunk.
pub const MAP_CHUNK_TILES_LENGTH: MapTileIndex = 16;

/// The terrain category painted onto a tile. `Land` is the category every
/// tile starts in and the only one a layer may claim.
#[derive(Clone, Copy, Debug, PartialEq, Eq, Structural)]
pub enum MapTileVisualType {
    Land,
    LandTree,
    Water,
    Terrain,
    Building,
}

/// Four flags, one per side of a square. On a tile, a set flag means that the
/// side cannot be crossed.
#[derive(Clone, Copy, Debug, PartialEq, Eq, Structural)]
pub struct SquareBounds {
    pub up: bool,
    pub down: bool,
    pub left: bool,
    pub right: bool,
}

impl SquareBounds {
    /// All four sides set.
    pub open spec fn spec_all() -> SquareBounds {
        SquareBounds { up: true, down: true, left: true, right: true }
    }

    /// No side set.
    pub open spec fn spec_none() -> SquareBounds {
        SquareBounds { up: false, down: false, left: false, right: false }
    }

    /// All four sides set: the blockage of a freshly claimed tile.
    #[verifier::when_used_as_spec(spec_all)]
    pub fn all() -> (r: SquareBounds)
        ensures
            r == Self::spec_all(),
    {
        SquareBounds { up: true, down: true, left: true, right: true }
    }

    /// No side set: the blockage of an untouched tile.
    #[verifier::when_used_as_spec(spec_none)]
    pub fn none() -> (r: SquareBounds)
        ensures
            r == Self::spec_none(),
    {
        SquareBounds { up: false, down: false, left: false, right: false }
    }

    /// Whether at least one side is set.
    pub open spec fn any(self) -> bool {
        self.up || self.down || self.left || self.right
    }

    /// Whether at least one side is set.
    pub fn is_any(&self) -> (r: bool)
        ensures
            r == self.any(),
    {
        self.up || self.down || self.left || self.right
    }
}

/// One tile: its terrain category and the blockage of its four sides.
#[derive(Clone, Copy, Debug, PartialEq, Eq, Structural)]
pub struct MapTile {
    pub visual_type: MapTileVisualType,
    pub walkability_blocked: SquareBounds,
}

impl MapTile {
    /// The tile every grid starts with: `Land`, open on all sides.
    pub open spec fn blank() -> MapTile {
        MapTile { visual_type: MapTileVisualType::Land, walkability_blocked: SquareBounds::none() }
    }

    /// A tile as a layer leaves it: the given category, blocked on all sides.
    pub open spec fn claimed(visual_type: MapTileVisualType) -> MapTile {
        MapTile { visual_type, walkability_blocked: SquareBounds::all() }
    }

    /// Sets the terrain category and hands the tile back for further
    /// changes. The blockage stays.
    pub fn set_visual_type(&mut self, visual_type: &MapTileVisualType) -> (r: &mut Self)
        ensures
            r.visual_type == *visual_type,
            r.walkability_blocked == old(self).walkability_blocked,
            *final(self) == *final(r),
    {
        self.visual_type = *visual_type;
        self
    }

    /// Sets the blockage of all four sides and hands the tile back for
    /// further changes. The terrain category stays.
    pub fn set_walkability_blocked(&mut self, walkability_blocked: &SquareBounds) -> (r: &mut Self)
        ensures
            r.visual_type == old(self).visual_type,
            r.walkability_blocked == *walkability_blocked,
            *final(self) == *final(r),
    {
        self.walkability_blocked = *walkability_blocked;
        self
    }
}

/// A tile coordinate, 0-based.
#[derive(Clone, Copy, Debug, PartialEq, Eq, Structural)]
pub struct MapTileXY {
    pub x: MapTileIndex,
    pub y: MapTileIndex,
}

/// A chunk coordinate, or a size counted in chunks.
#[derive(Clone, Copy, Debug, PartialEq, Eq, Structural)]
pub struct MapChunkXY {
    pub x: MapChunkIndex,
    pub y: MapChunkIndex,
}

/// Whether `rows` is a matrix `height` rows high and `width` tiles wide.
pub open spec fn is_matrix(rows: Seq<Seq<MapTile>>, width: int, height: int) -> bool {
    &&& rows.len() == height
    &&& forall|y: int| 0 <= y < height ==> (#[trigger] rows[y]).len() == width
}

/// The matrix of a grid that no layer has touched: every tile `Land` and
/// open on all sides.
pub open spec fn blank_rows(width: int, height: int) -> Seq<Seq<MapTile>> {
    Seq::new(height as nat, |y: int| Seq::new(width as nat, |x: int| MapTile::blank()))
}

/// A tile's place in row-major storage lies inside the storage.
proof fn lemma_flat_index_in_range(x: int, y: int, width: int, height: int)
    requires
        0 <= x < width,
        0 <= y < height,
    ensures
        0 <= y * width + x < width * height,
{
    assert(y * width + x < width * height) by (nonlinear_arith)
        requires
            0 <= x < width,
            0 <= y < height,
    ;
    assert(0 <= y * width) by (nonlinear_arith)
        requires
            0 <= y,
            0 <= width,
    ;
}

/// Two tiles that share a place in row-major storage are the same tile.
proof fn lemma_flat_index_injective(x1: int, y1: int, x2: int, y2: int, width: int)
    requires
        0 <= x1 < width,
        0 <= x2 < width,
        0 <= y1,
        0 <= y2,
        y1 * width + x1 == y2 * width + x2,
    ensures
        x1 == x2,
        y1 == y2,
{
    assert(y1 == y2) by (nonlinear_arith)
        requires
            0 <= x1 < width,
            0 <= x2 < width,
            0 <= y1,
            0 <= y2,
            y1 * width + x1 == y2 * width + x2,
    ;
}

/// A dense grid of tiles, a whole number of chunks wide and high. Its size
/// is fixed when it is made.
pub struct MapGrid {
    chunks_bounds: MapChunkXY,
    tiles_bounds: MapTileXY,
    tiles: Vec<MapTile>,
}

impl MapGrid {
    /// The grid as a matrix: `self@[y][x]` is the tile at `(x, y)`.
    pub closed spec fn view(&self) -> Seq<Seq<MapTile>> {
        Seq::new(
            self.tiles_bounds.y as nat,
            |y: int|
                Seq::new(
                    self.tiles_bounds.x as nat,
                    |x: int| self.tiles@[y * (self.tiles_bounds.x as int) + x],
                ),
        )
    }

    /// The size of the grid in chunks.
    pub closed spec fn chunks(&self) -> MapChunkXY {
        self.chunks_bounds
    }

    /// The size of the grid in tiles.
    pub closed spec fn bounds(&self) -> MapTileXY {
        self.tiles_bounds
    }

    /// The number of tiles in a row.
    pub open spec fn width(&self) -> int {
        self.bounds().x as int
    }

    /// The number of rows.
    pub open spec fn height(&self) -> int {
        self.bounds().y as int
    }

    /// Whether the coordinate names a tile of this grid.
    pub open spec fn contains(&self, xy: MapTileXY) -> bool {
        xy.x < self.width() && xy.y < self.height()
    }

    /// The storage holds exactly one tile per coordinate.
    pub closed spec fn storage_fits(&self) -> bool {
        self.tiles@.len() == (self.tiles_bounds.x as int) * (self.tiles_bounds.y as int)
    }

    /// Well-formedness: the tile extents are the chunk extents times the
    /// chunk side length, and the matrix has exactly that shape.
    pub open spec fn wf(&self) -> bool {
        &&& self.storage_fits()
        &&& self.width() == self.chunks().x * MAP_CHUNK_TILES_LENGTH
        &&& self.height() == self.chunks().y * MAP_CHUNK_TILES_LENGTH
        &&& is_matrix(self@, self.width(), self.height())
    }

    /// Makes a grid of the given size in chunks, every tile `Land` and open
    /// on all sides.
    pub fn new(map_chunks_count: &MapChunkXY) -> (grid: MapGrid)
        requires
            map_chunks_count.x * MAP_CHUNK_TILES_LENGTH <= MapTileIndex::MAX,
            map_chunks_count.y * MAP_CHUNK_TILES_LENGTH <= MapTileIndex::MAX,
            (map_chunks_count.x * MAP_CHUNK_TILES_LENGTH) * (map_chunks_count.y
                * MAP_CHUNK_TILES_LENGTH) <= usize::MAX,
        ensures
            grid.wf(),
            grid.chunks() == *map_chunks_count,
            grid@ == blank_rows(grid.width(), grid.height()),
    {
        let width: MapTileIndex = map_chunks_count.x * MAP_CHUNK_TILES_LENGTH;
        let height: MapTileIndex = map_chunks_count.y * MAP_CHUNK_TILES_LENGTH;
        let count: usize = (width as usize) * (height as usize);
        let blank = MapTile {
            visual_type: MapTileVisualType::Land,
            walkability_blocked: SquareBounds::none(),
        };
        let mut tiles: Vec<MapTile> = Vec::new();
        let mut i: usize = 0;
        while i < count
            invariant
                i <= count,
                tiles@.len() == i,
                blank == MapTile::blank(),
                forall|k: int| 0 <= k < i ==> tiles@[k] == MapTile::blank(),
            decreases count - i,
        {
            tiles.push(blank);
            i = i + 1;
        }
        let grid = MapGrid {
            chunks_bounds: *map_chunks_count,
            tiles_bounds: MapTileXY { x: width, y: height },
            tiles,
        };
        proof {
            let blank_rows = blank_rows(width as int, height as int);
            assert forall|y: int| 0 <= y < height implies #[trigger] grid@[y] =~= blank_rows[y] by {
                assert forall|x: int| 0 <= x < width implies grid@[y][x] == blank_rows[y][x] by {
                    lemma_flat_index_in_range(x, y, width as int, height as int);
                }
            }
            assert(grid@ =~= blank_rows);
        }
        grid
    }

    /// The size of the grid in chunks.
    pub fn get_chunks_bounds(&self) -> (r: MapChunkXY)
        ensures
            r == self.chunks(),
    {
        self.chunks_bounds
    }

    /// The size of the grid in tiles.
    pub fn get_tiles_bounds(&self) -> (r: MapTileXY)
        ensures
            r == self.bounds(),
    {
        self.tiles_bounds
    }

    /// The number of tiles.
    pub fn get_tiles_count(&self) -> (r: usize)
        requires
            self.wf(),
        ensures
            r == self.width() * self.height(),
    {
        self.tiles.len()
    }

    /// The number of chunks.
    pub fn get_chunks_count(&self) -> (r: usize)
        requires
            self.wf(),
        ensures
            r == self.chunks().x * self.chunks().y,
    {
        let count: usize = self.tiles.len();
        proof {
            let cx = self.chunks_bounds.x as int;
            let cy = self.chunks_bounds.y as int;
            assert(cx * cy <= (cx * 16) * (cy * 16)) by (nonlinear_arith)
                requires
                    0 <= cx,
                    0 <= cy,
            ;
            assert(count == (cx * 16) * (cy * 16));
        }
        (self.chunks_bounds.x as usize) * (self.chunks_bounds.y as usize)
    }

    /// The tile at a coordinate, or `None` where the coordinate lies outside
    /// the grid.
    pub fn get_tile(&self, xy: &MapTileXY) -> (r: Option<&MapTile>)
        requires
            self.wf(),
        ensures
            self.contains(*xy) ==> r == Some(&self@[xy.y as int][xy.x as int]),
            !self.contains(*xy) ==> r is None,
    {
        if xy.x < self.tiles_bounds.x && xy.y < self.tiles_bounds.y {
            let count: usize = self.tiles.len();
            proof {
                lemma_flat_index_in_range(
                    xy.x as int,
                    xy.y as int,
                    self.tiles_bounds.x as int,
                    self.tiles_bounds.y as int,
                );
                assert(0 <= (xy.y as int) * (self.tiles_bounds.x as int)) by (nonlinear_arith);
                assert((xy.y as int) * (self.tiles_bounds.x as int) + (xy.x as int) < count);
            }
            let i: usize = (xy.y as usize) * (self.tiles_bounds.x as usize) + (xy.x as usize);
            Some(&self.tiles[i])
        } else {
            None
        }
    }
    /// Mutable access to the tile at a coordinate, or `None` where the
    /// coordinate lies outside the grid. Whatever is written through the
    /// reference lands at that coordinate; no other tile changes.
    pub fn get_tile_mut(&mut self, xy: &MapTileXY) -> (r: Option<&mut MapTile>)
        requires
            old(self).wf(),
        ensures
            final(self).wf(),
            final(self).chunks() == old(self).chunks(),
            final(self).bounds() == old(self).bounds(),
            !old(self).contains(*xy) ==> r is None && final(self)@ == old(self)@,
            old(self).contains(*xy) ==> r is Some && *r.unwrap() == old(self)@[xy.y as int][xy.x
                as int] && final(self)@ == old(self)@.update(
                xy.y as int,
                old(self)@[xy.y as int].update(xy.x as int, *final(r.unwrap())),
            ),
    {
        if xy.x < self.tiles_bounds.x && xy.y < self.tiles_bounds.y {
            let count: usize = self.tiles.len();
            proof {
                lemma_flat_index_in_range(
                    xy.x as int,
                    xy.y as int,
                    self.tiles_bounds.x as int,
                    self.tiles_bounds.y as int,
                );
                assert(0 <= (xy.y as int) * (self.tiles_bounds.x as int)) by (nonlinear_arith);
                assert((xy.y as int) * (self.tiles_bounds.x as int) + (xy.x as int) < count);
                Self::lemma_view_after_write(*old(self), xy.x as int, xy.y as int);
            }
            let i: usize = (xy.y as usize) * (self.tiles_bounds.x as usize) + (xy.x as usize);
            Some(&mut self.tiles[i])
        } else {
            None
        }
    }

    /// Replacing the stored tile of `(x, y)` replaces that entry of the
    /// matrix and no other.
    proof fn lemma_view_after_write(before: MapGrid, x: int, y: int)
        requires
            before.wf(),
            0 <= x < before.width(),
            0 <= y < before.height(),
        ensures
            forall|after: MapGrid|
                after.tiles_bounds == before.tiles_bounds && after.chunks_bounds
                    == before.chunks_bounds && after.tiles@ == before.tiles@.update(
                    y * before.width() + x,
                    after.tiles@[y * before.width() + x],
                ) ==> #[trigger] after.view() == before@.update(
                    y,
                    before@[y].update(x, after.tiles@[y * before.width() + x]),
                ) && after.wf(),
    {
        let w = before.width();
        let h = before.height();
        lemma_flat_index_in_range(x, y, w, h);
        assert forall|after: MapGrid|
            after.tiles_bounds == before.tiles_bounds && after.chunks_bounds
                == before.chunks_bounds && after.tiles@ == before.tiles@.update(
                y * w + x,
                after.tiles@[y * w + x],
            ) implies #[trigger] after.view() == before@.update(
            y,
            before@[y].update(x, after.tiles@[y * w + x]),
        ) && after.wf() by {
            let expected = before@.update(y, before@[y].update(x, after.tiles@[y * w + x]));
            assert forall|j: int| 0 <= j < h implies #[trigger] after.view()[j] =~= expected[j] by {
                assert forall|i: int| 0 <= i < w implies after.view()[j][i] == expected[j][i] by {
                    lemma_flat_index_in_range(i, j, w, h);
                    if j * w + i == y * w + x {
                        lemma_flat_index_injective(i, j, x, y, w);
                    }
                }
            }
            assert(after.view() =~= expected);
        }
    }
}

} // verus!
