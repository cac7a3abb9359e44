//! The tile grid: terrain state per cell, indexed by column then row.

use vstd::prelude::*;
use crate::geometry::Rect;

verus! {

pub const MAP_WIDTH: i32 = 80;
pub const MAP_HEIGHT: i32 = 43;

#[derive(Clone, Copy, Debug, PartialEq, Eq)]
pub struct Tile {
    pub blocked: bool,
    pub explored: bool,
    pub block_sight: bool,
}

/// Columns of tiles: `map[x][y]` is the cell at column `x`, row `y`.
pub type TileMap = Vec<Vec<Tile>>;

pub open spec fn in_map(x: int, y: int) -> bool {
    0 <= x < MAP_WIDTH && 0 <= y < MAP_HEIGHT
}

/// The grid has the map's full width and height.
pub open spec fn map_wf(m: Seq<Vec<Tile>>) -> bool {
    &&& m.len() == MAP_WIDTH
    &&& forall|x: int| 0 <= x < m.len() ==> (#[trigger] m[x])@.len() == MAP_HEIGHT
}

pub open spec fn tile_at(m: Seq<Vec<Tile>>, x: int, y: int) -> Tile {
    m[x]@[y]
}

/// A floor cell: walkable and transparent.
pub open spec fn is_floor(t: Tile) -> bool {
    !t.blocked && !t.block_sight
}

/// Cell (x, y) lies strictly inside the rectangle's boundary ring.
pub open spec fn in_interior(r: Rect, x: int, y: int) -> bool {
    r.x1 < x < r.x2 && r.y1 < y < r.y2
}

pub open spec fn min_i(a: int, b: int) -> int {
    if a <= b { a } else { b }
}

pub open spec fn max_i(a: int, b: int) -> int {
    if a <= b { b } else { a }
}

/// Cell (x, y) lies on the horizontal segment from (x1, row) to (x2, row).
pub open spec fn on_h_segment(x1: int, x2: int, row: int, x: int, y: int) -> bool {
    y == row && min_i(x1, x2) <= x <= max_i(x1, x2)
}

/// Cell (x, y) lies on the vertical segment from (col, y1) to (col, y2).
pub open spec fn on_v_segment(y1: int, y2: int, col: int, x: int, y: int) -> bool {
    x == col && min_i(y1, y2) <= y <= max_i(y1, y2)
}

/// `new` is `old` with the cells that `carved` selects turned to floor, and
/// every other cell left as it was.
pub open spec fn carved_where(
    old: Seq<Vec<Tile>>,
    new: Seq<Vec<Tile>>,
    carved: spec_fn(int, int) -> bool,
) -> bool {
    &&& map_wf(new)
    &&& forall|x: int, y: int|
        #![trigger tile_at(new, x, y)]
        in_map(x, y) ==> if carved(x, y) {
            tile_at(new, x, y) == Tile {
                blocked: false,
                block_sight: false,
                explored: tile_at(old, x, y).explored,
            }
        } else {
            tile_at(new, x, y) == tile_at(old, x, y)
        }
}

/// A grid of the map's size in which every cell is solid rock, unexplored.
pub fn new_map() -> (m: TileMap)
    ensures
        map_wf(m@),
        forall|x: int, y: int|
            in_map(x, y) ==> #[trigger] tile_at(m@, x, y) == (Tile {
                blocked: true,
                explored: false,
                block_sight: true,
            }),
{
    let rock = Tile { blocked: true, explored: false, block_sight: true };
    let mut m: TileMap = Vec::new();
    let mut x: usize = 0;
    while x < MAP_WIDTH as usize
        invariant
            x <= MAP_WIDTH,
            m@.len() == x,
            forall|i: int| 0 <= i < x ==> (#[trigger] m@[i])@.len() == MAP_HEIGHT,
            forall|i: int, y: int|
                0 <= i < x && 0 <= y < MAP_HEIGHT ==> #[trigger] tile_at(m@, i, y) == rock,
        decreases MAP_WIDTH - x,
    {
        let mut column: Vec<Tile> = Vec::new();
        let mut y: usize = 0;
        while y < MAP_HEIGHT as usize
            invariant
                y <= MAP_HEIGHT,
                column@.len() == y,
                forall|j: int| 0 <= j < y ==> #[trigger] column@[j] == rock,
            decreases MAP_HEIGHT - y,
        {
            column.push(rock);
            y += 1;
        }
        let ghost col = column@;
        let ghost before = m@;
        m.push(column);
        assert forall|i: int, j: int|
            0 <= i <= x && 0 <= j < MAP_HEIGHT implies #[trigger] tile_at(m@, i, j) == rock by {
            if i < x {
                assert(tile_at(before, i, j) == rock);
                assert(m@[i] == before[i]);
            } else {
                assert(m@[i]@ == col);
            }
        }
        x += 1;
    }
    m
}

/// Turns the cell (x, y) into floor, keeping whether it was explored.
pub fn carve(map: &mut TileMap, x: usize, y: usize)
    requires
        map_wf(old(map)@),
        in_map(x as int, y as int),
    ensures
        map_wf(final(map)@),
        forall|i: int, j: int|
            #![trigger tile_at(final(map)@, i, j)]
            in_map(i, j) ==> tile_at(final(map)@, i, j) == if i == x && j == y {
                Tile {
                    blocked: false,
                    block_sight: false,
                    explored: tile_at(old(map)@, i, j).explored,
                }
            } else {
                tile_at(old(map)@, i, j)
            },
{
    let explored = map[x][y].explored;
    map[x][y] = Tile { blocked: false, block_sight: false, explored };
}

/// Marks the cell (x, y) as explored.
pub fn mark_explored(map: &mut TileMap, x: usize, y: usize)
    requires
        map_wf(old(map)@),
        in_map(x as int, y as int),
    ensures
        map_wf(final(map)@),
        forall|i: int, j: int|
            #![trigger tile_at(final(map)@, i, j)]
            in_map(i, j) ==> tile_at(final(map)@, i, j) == if i == x && j == y {
                Tile { explored: true, ..tile_at(old(map)@, i, j) }
            } else {
                tile_at(old(map)@, i, j)
            },
{
    let t = map[x][y];
    map[x][y] = Tile { explored: true, ..t };
}

/// Makes every cell strictly inside `room` floor; the boundary ring and the
/// rest of the map stay as they were.
pub fn create_room(room: Rect, map: &mut TileMap)
    requires
        map_wf(old(map)@),
        -1 <= room.x1 <= room.x2 <= MAP_WIDTH,
        -1 <= room.y1 <= room.y2 <= MAP_HEIGHT,
    ensures
        carved_where(old(map)@, final(map)@, |x: int, y: int| in_interior(room, x, y)),
{
    let ghost orig = map@;
    let mut x: i32 = room.x1 + 1;
    while x < room.x2
        invariant
            room.x1 + 1 <= x,
            x <= room.x2 || x == room.x1 + 1,
            -1 <= room.x1 <= room.x2 <= MAP_WIDTH,
            -1 <= room.y1 <= room.y2 <= MAP_HEIGHT,
            carved_where(orig, map@, |i: int, j: int| in_interior(room, i, j) && i < x),
        decreases room.x2 - x,
    {
        let mut y: i32 = room.y1 + 1;
        while y < room.y2
            invariant
                room.x1 < x < room.x2,
                room.y1 + 1 <= y,
                y <= room.y2 || y == room.y1 + 1,
                -1 <= room.x1 <= room.x2 <= MAP_WIDTH,
                -1 <= room.y1 <= room.y2 <= MAP_HEIGHT,
                carved_where(
                    orig,
                    map@,
                    |i: int, j: int| in_interior(room, i, j) && (i < x || (i == x && j < y)),
                ),
            decreases room.y2 - y,
        {
            carve(map, x as usize, y as usize);
            y += 1;
        }
        x += 1;
    }
}

/// Makes floor of the cells from (x1, y) to (x2, y), both ends included.
pub fn create_h_tunnel(x1: i32, x2: i32, y: i32, map: &mut TileMap)
    requires
        map_wf(old(map)@),
        in_map(x1 as int, y as int),
        in_map(x2 as int, y as int),
    ensures
        carved_where(old(map)@, final(map)@, |i: int, j: int| on_h_segment(x1 as int, x2 as int, y as int, i, j)),
{
    let ghost orig = map@;
    let lo: i32 = if x1 <= x2 { x1 } else { x2 };
    let hi: i32 = if x1 <= x2 { x2 } else { x1 };
    let mut x: i32 = lo;
    while x <= hi
        invariant
            lo == min_i(x1 as int, x2 as int),
            hi == max_i(x1 as int, x2 as int),
            lo <= x <= hi + 1,
            in_map(x1 as int, y as int),
            in_map(x2 as int, y as int),
            carved_where(orig, map@, |i: int, j: int| j == y && lo <= i < x),
        decreases hi + 1 - x,
    {
        carve(map, x as usize, y as usize);
        x += 1;
    }
}

/// Makes floor of the cells from (x, y1) to (x, y2), both ends included.
pub fn create_v_tunnel(y1: i32, y2: i32, x: i32, map: &mut TileMap)
    requires
        map_wf(old(map)@),
        in_map(x as int, y1 as int),
        in_map(x as int, y2 as int),
    ensures
        carved_where(old(map)@, final(map)@, |i: int, j: int| on_v_segment(y1 as int, y2 as int, x as int, i, j)),
{
    let ghost orig = map@;
    let lo: i32 = if y1 <= y2 { y1 } else { y2 };
    let hi: i32 = if y1 <= y2 { y2 } else { y1 };
    let mut y: i32 = lo;
    while y <= hi
        invariant
            lo == min_i(y1 as int, y2 as int),
            hi == max_i(y1 as int, y2 as int),
            lo <= y <= hi + 1,
            in_map(x as int, y1 as int),
            in_map(x as int, y2 as int),
            carved_where(orig, map@, |i: int, j: int| i == x && lo <= j < y),
        decreases hi + 1 - y,
    {
        carve(map, x as usize, y as usize);
        y += 1;
    }
}

impl crate::object::Object {
    /// Whether the object is shown: the player sees its cell, or it is
    /// always visible and its cell has been explored.
    pub fn is_drawn(&self, map: &TileMap, visible: bool) -> (r: bool)
        requires
            map_wf(map@),
        ensures
            r == (visible || (self.always_visible && in_map(self.x as int, self.y as int) && tile_at(
                map@,
                self.x as int,
                self.y as int,
            ).explored)),
    {
        if visible {
            return true;
        }
        if !self.always_visible || self.x < 0 || self.y < 0 || self.x >= MAP_WIDTH || self.y >= MAP_HEIGHT {
            return false;
        }
        map[self.x as usize][self.y as usize].explored
    }
}

} // verus!
