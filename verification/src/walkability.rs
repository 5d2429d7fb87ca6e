//! Repair of the walkability blockage: the walls between neighbouring tiles
//! of one terrain category are taken down, and the outer edge of the grid is
//! walled in.
//!
//! The repair is a single scan in place. What it leaves behind is stated
//! tile by tile over the grid as it was before the scan ([`simplified`]).

use vstd::prelude::*;
use crate::map::{is_matrix, MapGrid, MapTile, MapTileIndex, MapTileXY, SquareBounds};

verus! {

/// Whether the wall between `(x, y)` and its right neighbour `(x + 1, y)`
/// comes down: both tiles are of one category and each is blocked towards
/// the other.
pub open spec fn merges_right(rows: Seq<Seq<MapTile>>, x: int, y: int) -> bool {
    &&& rows[y][x].walkability_blocked.right
    &&& rows[y][x + 1].walkability_blocked.left
    &&& rows[y][x].visual_type == rows[y][x + 1].visual_type
}

/// Whether the wall between `(x, y)` and its upper neighbour `(x, y + 1)`
/// comes down: both tiles are of one category and each is blocked towards
/// the other.
pub open spec fn merges_up(rows: Seq<Seq<MapTile>>, x: int, y: int) -> bool {
    &&& rows[y][x].walkability_blocked.up
    &&& rows[y + 1][x].walkability_blocked.down
    &&& rows[y][x].visual_type == rows[y + 1][x].visual_type
}

/// The blockage of the tile at `(x, y)` after the repair. A side on the
/// outer edge of the grid is blocked. Any other side keeps its flag unless
/// the wall it belongs to comes down.
pub open spec fn simplified_blockage(rows: Seq<Seq<MapTile>>, x: int, y: int) -> SquareBounds {
    let blocked = rows[y][x].walkability_blocked;
    SquareBounds {
        up: y == rows.len() - 1 || (blocked.up && !merges_up(rows, x, y)),
        down: y == 0 || (blocked.down && !merges_up(rows, x, y - 1)),
        left: x == 0 || (blocked.left && !merges_right(rows, x - 1, y)),
        right: x == rows[y].len() - 1 || (blocked.right && !merges_right(rows, x, y)),
    }
}

/// The tile at `(x, y)` after the repair: its category stays.
pub open spec fn simplified_tile(rows: Seq<Seq<MapTile>>, x: int, y: int) -> MapTile {
    MapTile {
        visual_type: rows[y][x].visual_type,
        walkability_blocked: simplified_blockage(rows, x, y),
    }
}

/// The grid after the repair.
pub open spec fn simplified(rows: Seq<Seq<MapTile>>) -> Seq<Seq<MapTile>> {
    Seq::new(
        rows.len(),
        |y: int| Seq::new(rows[y].len(), |x: int| simplified_tile(rows, x, y)),
    )
}

/// Whether every tile on the outer ring of the grid is blocked on each side
/// that faces outwards.
pub open spec fn is_enclosed(rows: Seq<Seq<MapTile>>, width: int, height: int) -> bool {
    forall|x: int, y: int|
        0 <= x < width && 0 <= y < height ==> {
            let blocked = (#[trigger] rows[y][x]).walkability_blocked;
            &&& x == 0 ==> blocked.left
            &&& x == width - 1 ==> blocked.right
            &&& y == 0 ==> blocked.down
            &&& y == height - 1 ==> blocked.up
        }
}

/// The repair keeps the shape of the grid and the category of every tile.
pub proof fn lemma_simplified_keeps_categories(rows: Seq<Seq<MapTile>>, width: int, height: int)
    requires
        is_matrix(rows, width, height),
    ensures
        is_matrix(simplified(rows), width, height),
        forall|x: int, y: int|
            0 <= x < width && 0 <= y < height ==> (#[trigger] simplified(rows)[y][x]).visual_type
                == rows[y][x].visual_type,
{
}

/// Boundary enclosure: after the repair every tile on the outer ring is
/// blocked on each side that faces outwards, whatever the grid held before.
pub proof fn lemma_simplified_is_enclosed(rows: Seq<Seq<MapTile>>, width: int, height: int)
    requires
        is_matrix(rows, width, height),
    ensures
        is_enclosed(simplified(rows), width, height),
{
}

/// The repair only ever clears blockage: a side that does not face outwards
/// and is blocked after the repair was blocked before it.
pub proof fn lemma_simplified_only_clears(
    rows: Seq<Seq<MapTile>>,
    width: int,
    height: int,
    x: int,
    y: int,
)
    requires
        is_matrix(rows, width, height),
        0 <= x < width,
        0 <= y < height,
    ensures
        x > 0 && simplified(rows)[y][x].walkability_blocked.left
            ==> rows[y][x].walkability_blocked.left,
        x < width - 1 && simplified(rows)[y][x].walkability_blocked.right
            ==> rows[y][x].walkability_blocked.right,
        y > 0 && simplified(rows)[y][x].walkability_blocked.down
            ==> rows[y][x].walkability_blocked.down,
        y < height - 1 && simplified(rows)[y][x].walkability_blocked.up
            ==> rows[y][x].walkability_blocked.up,
{
}

/// Merge, side by side: where `(x, y)` and its right neighbour are of one
/// category and the two sides of the wall between them agree (both blocked
/// or both open), the wall is open on both sides after the repair.
pub proof fn lemma_simplified_opens_right(
    rows: Seq<Seq<MapTile>>,
    width: int,
    height: int,
    x: int,
    y: int,
)
    requires
        is_matrix(rows, width, height),
        0 <= x < width - 1,
        0 <= y < height,
        rows[y][x].visual_type == rows[y][x + 1].visual_type,
        rows[y][x].walkability_blocked.right == rows[y][x + 1].walkability_blocked.left,
    ensures
        !simplified(rows)[y][x].walkability_blocked.right,
        !simplified(rows)[y][x + 1].walkability_blocked.left,
{
}

/// Merge, one above the other: where `(x, y)` and its upper neighbour are of
/// one category and the two sides of the wall between them agree (both
/// blocked or both open), the wall is open on both sides after the repair.
pub proof fn lemma_simplified_opens_up(
    rows: Seq<Seq<MapTile>>,
    width: int,
    height: int,
    x: int,
    y: int,
)
    requires
        is_matrix(rows, width, height),
        0 <= x < width,
        0 <= y < height - 1,
        rows[y][x].visual_type == rows[y + 1][x].visual_type,
        rows[y][x].walkability_blocked.up == rows[y + 1][x].walkability_blocked.down,
    ensures
        !simplified(rows)[y][x].walkability_blocked.up,
        !simplified(rows)[y + 1][x].walkability_blocked.down,
{
}

/// Non-merge, side by side: where `(x, y)` and its right neighbour are of
/// different categories, the repair leaves both sides of the wall between
/// them as they were.
pub proof fn lemma_simplified_keeps_right(
    rows: Seq<Seq<MapTile>>,
    width: int,
    height: int,
    x: int,
    y: int,
)
    requires
        is_matrix(rows, width, height),
        0 <= x < width - 1,
        0 <= y < height,
        rows[y][x].visual_type != rows[y][x + 1].visual_type,
    ensures
        simplified(rows)[y][x].walkability_blocked.right == rows[y][x].walkability_blocked.right,
        simplified(rows)[y][x + 1].walkability_blocked.left == rows[y][x
            + 1].walkability_blocked.left,
{
}

/// Non-merge, one above the other: where `(x, y)` and its upper neighbour
/// are of different categories, the repair leaves both sides of the wall
/// between them as they were.
pub proof fn lemma_simplified_keeps_up(
    rows: Seq<Seq<MapTile>>,
    width: int,
    height: int,
    x: int,
    y: int,
)
    requires
        is_matrix(rows, width, height),
        0 <= x < width,
        0 <= y < height - 1,
        rows[y][x].visual_type != rows[y + 1][x].visual_type,
    ensures
        simplified(rows)[y][x].walkability_blocked.up == rows[y][x].walkability_blocked.up,
        simplified(rows)[y + 1][x].walkability_blocked.down == rows[y
            + 1][x].walkability_blocked.down,
{
}

/// Idempotence: repairing a repaired grid changes nothing.
pub proof fn lemma_simplified_idempotent(rows: Seq<Seq<MapTile>>, width: int, height: int)
    requires
        is_matrix(rows, width, height),
    ensures
        simplified(simplified(rows)) == simplified(rows),
{
    let once = simplified(rows);
    let twice = simplified(once);
    assert forall|y: int| 0 <= y < height implies #[trigger] twice[y] =~= once[y] by {
        assert forall|x: int| 0 <= x < width implies #[trigger] twice[y][x] == once[y][x] by {
            assert(once[y][x] == simplified_tile(rows, x, y));
            if x > 0 {
                assert(once[y][x - 1] == simplified_tile(rows, x - 1, y));
            }
            if x < width - 1 {
                assert(once[y][x + 1] == simplified_tile(rows, x + 1, y));
            }
            if y > 0 {
                assert(once[y - 1][x] == simplified_tile(rows, x, y - 1));
            }
            if y < height - 1 {
                assert(once[y + 1][x] == simplified_tile(rows, x, y + 1));
            }
        }
    }
    assert(twice =~= once);
}

/// Whether the scan, standing at `(at_x, at_y)`, has already been at `(x, y)`.
spec fn visited(at_x: int, at_y: int, x: int, y: int) -> bool {
    y < at_y || (y == at_y && x < at_x)
}

/// The tile at `(x, y)` while the scan stands at `(at_x, at_y)`. A visited
/// tile is finished. A tile still to come has lost only the flags that a
/// visited neighbour to its left or below took down together with its own.
spec fn scanned_tile(rows: Seq<Seq<MapTile>>, at_x: int, at_y: int, x: int, y: int) -> MapTile {
    if visited(at_x, at_y, x, y) {
        simplified_tile(rows, x, y)
    } else {
        let blocked = rows[y][x].walkability_blocked;
        MapTile {
            visual_type: rows[y][x].visual_type,
            walkability_blocked: SquareBounds {
                up: blocked.up,
                down: blocked.down && !(y > 0 && visited(at_x, at_y, x, y - 1) && merges_up(
                    rows,
                    x,
                    y - 1,
                )),
                left: blocked.left && !(x > 0 && visited(at_x, at_y, x - 1, y) && merges_right(
                    rows,
                    x - 1,
                    y,
                )),
                right: blocked.right,
            },
        }
    }
}

/// Whether every tile of `now` is what the scan over `before` has made of it
/// on reaching `(at_x, at_y)`.
spec fn scanned_up_to(
    now: Seq<Seq<MapTile>>,
    before: Seq<Seq<MapTile>>,
    at_x: int,
    at_y: int,
) -> bool {
    forall|x: int, y: int|
        0 <= y < before.len() && 0 <= x < before[y].len() ==> #[trigger] now[y][x] == scanned_tile(
            before,
            at_x,
            at_y,
            x,
            y,
        )
}

/// The tile at `(x, y)` while the scan deals with `(at_x, at_y)` on the grid
/// `rows`, after `stage` of its five steps: the walls to the left, below, to
/// the right and above have been looked at in that order, and last the
/// blockage of `(at_x, at_y)` itself has been written back.
spec fn staged_tile(
    rows: Seq<Seq<MapTile>>,
    at_x: int,
    at_y: int,
    stage: int,
    x: int,
    y: int,
) -> MapTile {
    let blocked = rows[y][x].walkability_blocked;
    let own = x == at_x && y == at_y && stage >= 5;
    MapTile {
        visual_type: rows[y][x].visual_type,
        walkability_blocked: SquareBounds {
            up: (own && y == rows.len() - 1) || (blocked.up && !((own || (stage >= 2 && x == at_x
                && y == at_y - 1)) && y < rows.len() - 1 && merges_up(rows, x, y))),
            down: (own && y == 0) || (blocked.down && !((own || (stage >= 4 && x == at_x && y
                == at_y + 1)) && y > 0 && merges_up(rows, x, y - 1))),
            left: (own && x == 0) || (blocked.left && !((own || (stage >= 3 && x == at_x + 1 && y
                == at_y)) && x > 0 && merges_right(rows, x - 1, y))),
            right: (own && x == rows[y].len() - 1) || (blocked.right && !((own || (stage >= 1 && x
                == at_x - 1 && y == at_y)) && x < rows[y].len() - 1 && merges_right(rows, x, y))),
        },
    }
}

/// The working copy of the tile at `(at_x, at_y)` after `stage` steps: the
/// sides already looked at are finished, the others are as in `rows`.
spec fn staged_copy(rows: Seq<Seq<MapTile>>, at_x: int, at_y: int, stage: int) -> MapTile {
    let blocked = rows[at_y][at_x].walkability_blocked;
    let done = simplified_blockage(rows, at_x, at_y);
    MapTile {
        visual_type: rows[at_y][at_x].visual_type,
        walkability_blocked: SquareBounds {
            up: if stage >= 4 {
                done.up
            } else {
                blocked.up
            },
            down: if stage >= 2 {
                done.down
            } else {
                blocked.down
            },
            left: if stage >= 1 {
                done.left
            } else {
                blocked.left
            },
            right: if stage >= 3 {
                done.right
            } else {
                blocked.right
            },
        },
    }
}

/// Whether the grid `now` is what `stage` steps of dealing with
/// `(at_x, at_y)` have made of `rows`.
spec fn staged_grid(
    now: Seq<Seq<MapTile>>,
    rows: Seq<Seq<MapTile>>,
    at_x: int,
    at_y: int,
    stage: int,
) -> bool {
    forall|x: int, y: int|
        0 <= y < rows.len() && 0 <= x < rows[y].len() ==> #[trigger] now[y][x] == staged_tile(
            rows,
            at_x,
            at_y,
            stage,
            x,
            y,
        )
}

/// Dealing with the tile the scan stands at moves the scan one tile on.
proof fn lemma_visit_advances(
    before: Seq<Seq<MapTile>>,
    at_entry: Seq<Seq<MapTile>>,
    now: Seq<Seq<MapTile>>,
    width: int,
    height: int,
    at_x: int,
    at_y: int,
)
    requires
        is_matrix(before, width, height),
        is_matrix(at_entry, width, height),
        is_matrix(now, width, height),
        0 <= at_x < width,
        0 <= at_y < height,
        scanned_up_to(at_entry, before, at_x, at_y),
        staged_grid(now, at_entry, at_x, at_y, 5),
    ensures
        scanned_up_to(now, before, at_x + 1, at_y),
{
    assert forall|x: int, y: int|
        0 <= y < before.len() && 0 <= x < before[y].len() implies #[trigger] now[y][x]
        == scanned_tile(before, at_x + 1, at_y, x, y) by {
        assert(now[y][x] == staged_tile(at_entry, at_x, at_y, 5, x, y));
        assert(at_entry[y][x] == scanned_tile(before, at_x, at_y, x, y));
        if x > 0 {
            assert(at_entry[y][x - 1] == scanned_tile(before, at_x, at_y, x - 1, y));
        }
        if x < width - 1 {
            assert(at_entry[y][x + 1] == scanned_tile(before, at_x, at_y, x + 1, y));
        }
        if y > 0 {
            assert(at_entry[y - 1][x] == scanned_tile(before, at_x, at_y, x, y - 1));
        }
        if y < height - 1 {
            assert(at_entry[y + 1][x] == scanned_tile(before, at_x, at_y, x, y + 1));
        }
    }
}

/// A scan that has finished a row stands at the start of the next.
proof fn lemma_row_done(
    before: Seq<Seq<MapTile>>,
    now: Seq<Seq<MapTile>>,
    width: int,
    height: int,
    at_y: int,
)
    requires
        is_matrix(before, width, height),
        scanned_up_to(now, before, width, at_y),
    ensures
        scanned_up_to(now, before, 0, at_y + 1),
{
    assert forall|x: int, y: int|
        0 <= y < before.len() && 0 <= x < before[y].len() implies #[trigger] now[y][x]
        == scanned_tile(before, 0, at_y + 1, x, y) by {
        assert(now[y][x] == scanned_tile(before, width, at_y, x, y));
    }
}

/// The first step of dealing with a tile, of which `current` is the
/// working copy: the wall towards the left neighbour. Where both tiles are of one
/// category and each is blocked towards the other, both sides are cleared.
/// Where there is no such neighbour, the side is blocked.
fn check_left(
    map_grid: &mut MapGrid,
    x: MapTileIndex,
    y: MapTileIndex,
    current: &mut MapTile,
    Ghost(rows): Ghost<Seq<Seq<MapTile>>>,
)
    requires
        old(map_grid).wf(),
        x < old(map_grid).width(),
        y < old(map_grid).height(),
        is_matrix(rows, old(map_grid).width(), old(map_grid).height()),
        staged_grid(old(map_grid)@, rows, x as int, y as int, 0),
        *old(current) == staged_copy(rows, x as int, y as int, 0),
    ensures
        final(map_grid).wf(),
        final(map_grid).chunks() == old(map_grid).chunks(),
        final(map_grid).bounds() == old(map_grid).bounds(),
        staged_grid(final(map_grid)@, rows, x as int, y as int, 1),
        *final(current) == staged_copy(rows, x as int, y as int, 1),
{
    let ghost at_entry = map_grid@;
    if x > 0 {
        // If the same tile type to the left shares a border, remove the blockage
        if current.walkability_blocked.left {
            let left_tile = map_grid.get_tile_mut(&MapTileXY { x: x - 1, y }).unwrap();
            if left_tile.visual_type == current.visual_type && left_tile.walkability_blocked.right {
                current.walkability_blocked.left = false;
                left_tile.walkability_blocked.right = false;
            }
        }
        proof {
            assert(at_entry[y as int][x - 1] == staged_tile(
                rows,
                x as int,
                y as int,
                0,
                x - 1,
                y as int,
            ));
            assert forall|i: int, j: int|
                0 <= j < rows.len() && 0 <= i < rows[j].len() implies #[trigger] map_grid@[j][i]
                == staged_tile(rows, x as int, y as int, 1, i, j) by {
                assert(at_entry[j][i] == staged_tile(
                    rows,
                    x as int,
                    y as int,
                    0,
                    i,
                    j,
                ));
            }
        }
    } else {
        // Left edge of map is always blocked
        current.walkability_blocked.left = true;
    }
}

/// The second step of dealing with a tile, of which `current` is the
/// working copy: the wall towards the lower neighbour. Where both tiles are of one
/// category and each is blocked towards the other, both sides are cleared.
/// Where there is no such neighbour, the side is blocked.
fn check_down(
    map_grid: &mut MapGrid,
    x: MapTileIndex,
    y: MapTileIndex,
    current: &mut MapTile,
    Ghost(rows): Ghost<Seq<Seq<MapTile>>>,
)
    requires
        old(map_grid).wf(),
        x < old(map_grid).width(),
        y < old(map_grid).height(),
        is_matrix(rows, old(map_grid).width(), old(map_grid).height()),
        staged_grid(old(map_grid)@, rows, x as int, y as int, 1),
        *old(current) == staged_copy(rows, x as int, y as int, 1),
    ensures
        final(map_grid).wf(),
        final(map_grid).chunks() == old(map_grid).chunks(),
        final(map_grid).bounds() == old(map_grid).bounds(),
        staged_grid(final(map_grid)@, rows, x as int, y as int, 2),
        *final(current) == staged_copy(rows, x as int, y as int, 2),
{
    let ghost at_entry = map_grid@;
    if y > 0 {
        // If the same tile type downwards shares a border, remove the blockage
        if current.walkability_blocked.down {
            let down_tile = map_grid.get_tile_mut(&MapTileXY { x, y: y - 1 }).unwrap();
            if down_tile.visual_type == current.visual_type && down_tile.walkability_blocked.up {
                current.walkability_blocked.down = false;
                down_tile.walkability_blocked.up = false;
            }
        }
        proof {
            assert(at_entry[y - 1][x as int] == staged_tile(
                rows,
                x as int,
                y as int,
                1,
                x as int,
                y - 1,
            ));
            assert forall|i: int, j: int|
                0 <= j < rows.len() && 0 <= i < rows[j].len() implies #[trigger] map_grid@[j][i]
                == staged_tile(rows, x as int, y as int, 2, i, j) by {
                assert(at_entry[j][i] == staged_tile(
                    rows,
                    x as int,
                    y as int,
                    1,
                    i,
                    j,
                ));
            }
        }
    } else {
        // Bottom edge of map is always blocked
        current.walkability_blocked.down = true;
    }
}

/// The third step of dealing with a tile, of which `current` is the
/// working copy: the wall towards the right neighbour. Where both tiles are of one
/// category and each is blocked towards the other, both sides are cleared.
/// Where there is no such neighbour, the side is blocked.
fn check_right(
    map_grid: &mut MapGrid,
    x: MapTileIndex,
    y: MapTileIndex,
    current: &mut MapTile,
    Ghost(rows): Ghost<Seq<Seq<MapTile>>>,
)
    requires
        old(map_grid).wf(),
        x < old(map_grid).width(),
        y < old(map_grid).height(),
        is_matrix(rows, old(map_grid).width(), old(map_grid).height()),
        staged_grid(old(map_grid)@, rows, x as int, y as int, 2),
        *old(current) == staged_copy(rows, x as int, y as int, 2),
    ensures
        final(map_grid).wf(),
        final(map_grid).chunks() == old(map_grid).chunks(),
        final(map_grid).bounds() == old(map_grid).bounds(),
        staged_grid(final(map_grid)@, rows, x as int, y as int, 3),
        *final(current) == staged_copy(rows, x as int, y as int, 3),
{
    let ghost at_entry = map_grid@;
    if x < map_grid.get_tiles_bounds().x - 1 {
        // If the same tile type to the right shares a border, remove the blockage
        if current.walkability_blocked.right {
            let right_tile = map_grid.get_tile_mut(&MapTileXY { x: x + 1, y }).unwrap();
            if right_tile.visual_type == current.visual_type
                && right_tile.walkability_blocked.left {
                current.walkability_blocked.right = false;
                right_tile.walkability_blocked.left = false;
            }
        }
        proof {
            assert(at_entry[y as int][x + 1] == staged_tile(
                rows,
                x as int,
                y as int,
                2,
                x + 1,
                y as int,
            ));
            assert forall|i: int, j: int|
                0 <= j < rows.len() && 0 <= i < rows[j].len() implies #[trigger] map_grid@[j][i]
                == staged_tile(rows, x as int, y as int, 3, i, j) by {
                assert(at_entry[j][i] == staged_tile(
                    rows,
                    x as int,
                    y as int,
                    2,
                    i,
                    j,
                ));
            }
        }
    } else {
        // Right edge of map is always blocked
        current.walkability_blocked.right = true;
    }
}

/// The fourth step of dealing with a tile, of which `current` is the
/// working copy: the wall towards the upper neighbour. Where both tiles are of one
/// category and each is blocked towards the other, both sides are cleared.
/// Where there is no such neighbour, the side is blocked.
fn check_up(
    map_grid: &mut MapGrid,
    x: MapTileIndex,
    y: MapTileIndex,
    current: &mut MapTile,
    Ghost(rows): Ghost<Seq<Seq<MapTile>>>,
)
    requires
        old(map_grid).wf(),
        x < old(map_grid).width(),
        y < old(map_grid).height(),
        is_matrix(rows, old(map_grid).width(), old(map_grid).height()),
        staged_grid(old(map_grid)@, rows, x as int, y as int, 3),
        *old(current) == staged_copy(rows, x as int, y as int, 3),
    ensures
        final(map_grid).wf(),
        final(map_grid).chunks() == old(map_grid).chunks(),
        final(map_grid).bounds() == old(map_grid).bounds(),
        staged_grid(final(map_grid)@, rows, x as int, y as int, 4),
        *final(current) == staged_copy(rows, x as int, y as int, 4),
{
    let ghost at_entry = map_grid@;
    if y < map_grid.get_tiles_bounds().y - 1 {
        // If the same tile type upwards shares a border, remove the blockage
        if current.walkability_blocked.up {
            let up_tile = map_grid.get_tile_mut(&MapTileXY { x, y: y + 1 }).unwrap();
            if up_tile.visual_type == current.visual_type && up_tile.walkability_blocked.down {
                current.walkability_blocked.up = false;
                up_tile.walkability_blocked.down = false;
            }
        }
        proof {
            assert(at_entry[y + 1][x as int] == staged_tile(
                rows,
                x as int,
                y as int,
                3,
                x as int,
                y + 1,
            ));
            assert forall|i: int, j: int|
                0 <= j < rows.len() && 0 <= i < rows[j].len() implies #[trigger] map_grid@[j][i]
                == staged_tile(rows, x as int, y as int, 4, i, j) by {
                assert(at_entry[j][i] == staged_tile(
                    rows,
                    x as int,
                    y as int,
                    3,
                    i,
                    j,
                ));
            }
        }
    } else {
        // Top edge of map is always blocked
        current.walkability_blocked.up = true;
    }
}

/// The last step of dealing with a tile: the blockage of the working copy
/// is written back.
fn store_blockage(
    map_grid: &mut MapGrid,
    x: MapTileIndex,
    y: MapTileIndex,
    current: &MapTile,
    Ghost(rows): Ghost<Seq<Seq<MapTile>>>,
)
    requires
        old(map_grid).wf(),
        x < old(map_grid).width(),
        y < old(map_grid).height(),
        is_matrix(rows, old(map_grid).width(), old(map_grid).height()),
        staged_grid(old(map_grid)@, rows, x as int, y as int, 4),
        *current == staged_copy(rows, x as int, y as int, 4),
    ensures
        final(map_grid).wf(),
        final(map_grid).chunks() == old(map_grid).chunks(),
        final(map_grid).bounds() == old(map_grid).bounds(),
        staged_grid(final(map_grid)@, rows, x as int, y as int, 5),
{
    let ghost at_entry = map_grid@;
    map_grid.get_tile_mut(&MapTileXY { x, y }).unwrap().set_walkability_blocked(
        &current.walkability_blocked,
    );
    proof {
        assert(at_entry[y as int][x as int] == staged_tile(
            rows,
            x as int,
            y as int,
            4,
            x as int,
            y as int,
        ));
        assert forall|i: int, j: int|
            0 <= j < rows.len() && 0 <= i < rows[j].len() implies #[trigger] map_grid@[j][i]
            == staged_tile(rows, x as int, y as int, 5, i, j) by {
            assert(at_entry[j][i] == staged_tile(
                rows,
                x as int,
                y as int,
                4,
                i,
                j,
            ));
        }
    }
}

/// Deals with one tile of the scan: takes a working copy of it, looks at its
/// four walls in turn (left, down, right, up) and writes the blockage of the
/// copy back.
fn visit(map_grid: &mut MapGrid, x: MapTileIndex, y: MapTileIndex)
    requires
        old(map_grid).wf(),
        x < old(map_grid).width(),
        y < old(map_grid).height(),
    ensures
        final(map_grid).wf(),
        final(map_grid).chunks() == old(map_grid).chunks(),
        final(map_grid).bounds() == old(map_grid).bounds(),
        staged_grid(final(map_grid)@, old(map_grid)@, x as int, y as int, 5),
{
    let ghost rows = map_grid@;
    let mut current_tile_copy = map_grid.get_tile(&MapTileXY { x, y }).unwrap().clone();
    // Check tile (x - 1)
    check_left(map_grid, x, y, &mut current_tile_copy, Ghost(rows));
    // Check tile (y - 1)
    check_down(map_grid, x, y, &mut current_tile_copy, Ghost(rows));
    // Check tile (x + 1)
    check_right(map_grid, x, y, &mut current_tile_copy, Ghost(rows));
    // Check tile (y + 1)
    check_up(map_grid, x, y, &mut current_tile_copy, Ghost(rows));
    store_blockage(map_grid, x, y, &current_tile_copy, Ghost(rows));
}

/// Takes down the walls between neighbouring tiles of one category and walls
/// in the outer edge of the grid.
///
/// The grid is scanned once, row by row from the bottom and from left to
/// right within a row. At each tile the walls towards its four neighbours
/// are looked at in turn (left, down, right, up): where the neighbour is of
/// the same category and both sides of the wall are blocked, both are
/// cleared; where there is no neighbour, the side is blocked.
pub fn simplify_map_walkability_blockage(map_grid: &mut MapGrid)
    requires
        old(map_grid).wf(),
    ensures
        final(map_grid).wf(),
        final(map_grid).chunks() == old(map_grid).chunks(),
        final(map_grid).bounds() == old(map_grid).bounds(),
        final(map_grid)@ == simplified(old(map_grid)@),
{
    let tile_width: MapTileIndex = map_grid.get_tiles_bounds().x;
    let tile_height: MapTileIndex = map_grid.get_tiles_bounds().y;
    let ghost before = map_grid@;

    let mut y: MapTileIndex = 0;
    while y < tile_height
        invariant
            y <= tile_height,
            map_grid.wf(),
            map_grid.chunks() == old(map_grid).chunks(),
            map_grid.bounds() == old(map_grid).bounds(),
            tile_width == map_grid.width(),
            tile_height == map_grid.height(),
            is_matrix(before, tile_width as int, tile_height as int),
            scanned_up_to(map_grid@, before, 0, y as int),
        decreases tile_height - y,
    {
        let mut x: MapTileIndex = 0;
        while x < tile_width
            invariant
                x <= tile_width,
                y < tile_height,
                map_grid.wf(),
                map_grid.chunks() == old(map_grid).chunks(),
                map_grid.bounds() == old(map_grid).bounds(),
                tile_width == map_grid.width(),
                tile_height == map_grid.height(),
                is_matrix(before, tile_width as int, tile_height as int),
                scanned_up_to(map_grid@, before, x as int, y as int),
            decreases tile_width - x,
        {
            let ghost at_entry = map_grid@;
            visit(map_grid, x, y);
            proof {
                lemma_visit_advances(
                    before,
                    at_entry,
                    map_grid@,
                    tile_width as int,
                    tile_height as int,
                    x as int,
                    y as int,
                );
            }
            x = x + 1;
        }
        proof {
            lemma_row_done(before, map_grid@, tile_width as int, tile_height as int, y as int);
        }
        y = y + 1;
    }
    assert(map_grid@ =~~= simplified(before));
}

} // verus!
