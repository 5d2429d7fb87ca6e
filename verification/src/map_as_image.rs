//! The grid as a raster image for inspection: one RGB pixel per tile, rows
//! from `y = 0` upwards and tiles from left to right within a row.

use vstd::prelude::*;
use crate::map::{MapGrid, MapTile, MapTileIndex, MapTileVisualType, MapTileXY};

verus! {

/// The number of bytes that one tile takes in the image.
pub const BYTES_PER_TILE_PIXEL: usize = 3;

/// One pixel: red, green, blue.
pub type Rgb8 = [u8; 3];

/// The colour of a terrain category.
pub open spec fn rgb8_of_visual_type(visual_type: MapTileVisualType) -> Seq<u8> {
    match visual_type {
        MapTileVisualType::Land => seq![0u8, 0u8, 0u8],
        MapTileVisualType::LandTree => seq![0u8, 255u8, 0u8],
        MapTileVisualType::Water => seq![0u8, 0u8, 255u8],
        MapTileVisualType::Terrain => seq![255u8, 255u8, 255u8],
        MapTileVisualType::Building => seq![255u8, 0u8, 0u8],
    }
}

/// Whether a tile is drawn dimmed: it is claimed and open on all sides, so
/// it lies inside a region of its category.
pub open spec fn is_dimmed(tile: MapTile) -> bool {
    tile.visual_type != MapTileVisualType::Land && !tile.walkability_blocked.any()
}

/// One colour channel of a dimmed tile: two thirds of the full value,
/// rounded down at the division.
pub open spec fn dimmed(channel: u8) -> u8 {
    (channel / 3 * 2) as u8
}

/// The pixel of a tile: the colour of its category, dimmed where the tile
/// lies inside a region.
pub open spec fn pixel_of_tile(tile: MapTile) -> Seq<u8> {
    let full = rgb8_of_visual_type(tile.visual_type);
    if is_dimmed(tile) {
        seq![dimmed(full[0]), dimmed(full[1]), dimmed(full[2])]
    } else {
        full
    }
}

/// The place in the image of one colour channel of the tile at `(x, y)`.
pub open spec fn byte_index(width: int, x: int, y: int, channel: int) -> int {
    (y * width + x) * 3 + channel
}

/// The colour of a terrain category.
pub fn get_rgb8_from_map_visual_type(visual_type: &MapTileVisualType) -> (rgb: Rgb8)
    ensures
        rgb@ == rgb8_of_visual_type(*visual_type),
{
    let rgb: Rgb8 = match visual_type {
        MapTileVisualType::Land => [0, 0, 0],
        MapTileVisualType::LandTree => [0, 255, 0],
        MapTileVisualType::Water => [0, 0, 255],
        MapTileVisualType::Terrain => [255, 255, 255],
        MapTileVisualType::Building => [255, 0, 0],
    };
    assert(rgb@ =~= rgb8_of_visual_type(*visual_type));
    rgb
}

/// The colour of a tile's terrain category.
pub fn get_rgb8_from_map_tile(tile: &MapTile) -> (rgb: Rgb8)
    ensures
        rgb@ == rgb8_of_visual_type(tile.visual_type),
{
    get_rgb8_from_map_visual_type(&tile.visual_type)
}

/// The bytes of one more tile come to stand behind the bytes of the tiles
/// before it.
proof fn lemma_next_pixel(width: int, x: int, y: int)
    requires
        0 <= x < width,
        0 <= y,
    ensures
        byte_index(width, x, y, 0) + 3 == byte_index(width, x + 1, y, 0),
        0 <= byte_index(width, x, y, 0),
{
    assert((y * width + x) * 3 + 3 == (y * width + (x + 1)) * 3) by (nonlinear_arith);
    assert(0 <= (y * width + x) * 3) by (nonlinear_arith)
        requires
            0 <= x < width,
            0 <= y,
    ;
}

/// The end of one row of the image is the start of the next.
proof fn lemma_next_row(width: int, y: int)
    ensures
        byte_index(width, width, y, 0) == byte_index(width, 0, y + 1, 0),
{
    assert((y * width + width) * 3 == ((y + 1) * width + 0) * 3) by (nonlinear_arith);
}

/// A tile that comes earlier in the scan has its bytes earlier in the image.
proof fn lemma_earlier_pixel(width: int, x: int, y: int, at_x: int, at_y: int, channel: int)
    requires
        0 <= x < width,
        0 <= at_x <= width,
        0 <= y,
        y < at_y || (y == at_y && x < at_x),
        0 <= channel < 3,
    ensures
        0 <= byte_index(width, x, y, channel) < byte_index(width, at_x, at_y, 0),
{
    assert(0 <= (y * width + x) * 3 + channel < (at_y * width + at_x) * 3) by (nonlinear_arith)
        requires
            0 <= x < width,
            0 <= at_x <= width,
            0 <= y,
            y < at_y || (y == at_y && x < at_x),
            0 <= channel < 3,
    ;
}

/// Whether `bytes` holds the pixels of all tiles that the scan has passed on
/// its way to `(at_x, at_y)`, and nothing else.
spec fn drawn_up_to(
    bytes: Seq<u8>,
    rows: Seq<Seq<MapTile>>,
    width: int,
    at_x: int,
    at_y: int,
) -> bool {
    &&& bytes.len() == byte_index(width, at_x, at_y, 0)
    &&& forall|x: int, y: int, channel: int|
        0 <= x < width && 0 <= y && (y < at_y || (y == at_y && x < at_x)) && 0 <= channel < 3
            ==> bytes[#[trigger] byte_index(width, x, y, channel)] == pixel_of_tile(
            rows[y][x],
        )[channel]
}

/// The grid as the bytes of an RGB image, three bytes per tile, row after
/// row from `y = 0` and from left to right within a row. A tile has the
/// colour of its category; a claimed tile that is open on all sides is drawn
/// at two thirds of that.
pub fn map_grid_as_rgb8_bytes(grid: &MapGrid) -> (bytes: Vec<u8>)
    requires
        grid.wf(),
    ensures
        bytes@.len() == grid.width() * grid.height() * BYTES_PER_TILE_PIXEL,
        forall|x: int, y: int, channel: int|
            0 <= x < grid.width() && 0 <= y < grid.height() && 0 <= channel < 3
                ==> bytes@[#[trigger] byte_index(grid.width(), x, y, channel)] == pixel_of_tile(
                grid@[y][x],
            )[channel],
{
    let tiles_bounds = grid.get_tiles_bounds();
    let ghost width = tiles_bounds.x as int;
    let mut bytes: Vec<u8> = Vec::new();
    let mut y: MapTileIndex = 0;
    while y < tiles_bounds.y
        invariant
            grid.wf(),
            tiles_bounds == grid.bounds(),
            width == grid.width(),
            y <= tiles_bounds.y,
            drawn_up_to(bytes@, grid@, width, 0, y as int),
        decreases tiles_bounds.y - y,
    {
        let mut x: MapTileIndex = 0;
        while x < tiles_bounds.x
            invariant
                grid.wf(),
                tiles_bounds == grid.bounds(),
                width == grid.width(),
                y < tiles_bounds.y,
                x <= tiles_bounds.x,
                drawn_up_to(bytes@, grid@, width, x as int, y as int),
            decreases tiles_bounds.x - x,
        {
            let tile = grid.get_tile(&MapTileXY { x, y }).unwrap();
            let (r, g, b) = {
                let tile_rgb = get_rgb8_from_map_tile(tile);
                if tile.visual_type != MapTileVisualType::Land
                    && !tile.walkability_blocked.is_any() {
                    (tile_rgb[0] / 3 * 2, tile_rgb[1] / 3 * 2, tile_rgb[2] / 3 * 2)
                } else {
                    (tile_rgb[0], tile_rgb[1], tile_rgb[2])
                }
            };
            let ghost before = bytes@;
            bytes.push(r);
            bytes.push(g);
            bytes.push(b);
            proof {
                lemma_next_pixel(width, x as int, y as int);
                assert forall|i: int, j: int, channel: int|
                    0 <= i < width && 0 <= j && (j < y || (j == y && i < x + 1)) && 0 <= channel
                        < 3 implies bytes@[#[trigger] byte_index(width, i, j, channel)]
                    == pixel_of_tile(grid@[j][i])[channel] by {
                    if i == x && j == y {
                        assert(byte_index(width, i, j, channel) == before.len() + channel);
                    } else {
                        lemma_earlier_pixel(width, i, j, x as int, y as int, channel);
                        assert(bytes@[byte_index(width, i, j, channel)] == before[byte_index(
                            width,
                            i,
                            j,
                            channel,
                        )]);
                    }
                }
            }
            x = x + 1;
        }
        proof {
            lemma_next_row(width, y as int);
        }
        y = y + 1;
    }
    proof {
        assert(0 * width + 0 == 0) by (nonlinear_arith);
        assert((tiles_bounds.y as int * width + 0) * 3 == width * (tiles_bounds.y as int) * 3)
            by (nonlinear_arith);
    }
    bytes
}

} // verus!
