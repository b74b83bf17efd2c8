use vstd::prelude::*;

verus! {

/// Number of tile columns of a dungeon.
pub const MAP_WIDTH: i32 = 15;

/// Number of tile rows of a dungeon.
pub const MAP_HEIGHT: i32 = 15;

/// Side length of one tile, in pixels.
pub const TILE_SIZE: i32 = 50;

/// Tile code of an open floor cell.
pub const FLOOR: i32 = 0;

/// Tile code of a wall cell.
pub const WALL: i32 = 1;

/// Tile code of a treasure cell.
pub const TREASURE: i32 = 2;

/// The tile codes of a grid, row by row.
pub open spec fn cells(map: &Vec<Vec<i32>>) -> Seq<Seq<i32>> {
    map@.map_values(|row: Vec<i32>| row@)
}

/// `g` has `MAP_HEIGHT` rows of `MAP_WIDTH` tiles each.
pub open spec fn well_sized(g: Seq<Seq<i32>>) -> bool {
    &&& g.len() == MAP_HEIGHT
    &&& forall|y: int| 0 <= y < MAP_HEIGHT ==> #[trigger] g[y].len() == MAP_WIDTH
}

/// `(x, y)` addresses a tile of `g`.
pub open spec fn in_grid(g: Seq<Seq<i32>>, x: int, y: int) -> bool {
    0 <= y < g.len() && 0 <= x < g[y].len()
}

/// `g` with the tile at column `x`, row `y` replaced by `v`.
pub open spec fn with_cell(g: Seq<Seq<i32>>, x: int, y: int, v: i32) -> Seq<Seq<i32>> {
    g.update(y, g[y].update(x, v))
}

/// The tile index of a pixel coordinate.
pub open spec fn tile_of(n: int) -> int {
    n / (TILE_SIZE as int)
}

/// Converts a non-negative pixel coordinate to its tile index.
pub fn as_tile(n: i32) -> (r: usize)
    requires
        n >= 0,
    ensures
        r as int == tile_of(n as int),
{
    (n / TILE_SIZE) as usize
}

/// The tile under pixel `(px, py)` is no wall.
pub open spec fn walkable_at(g: Seq<Seq<i32>>, px: int, py: int) -> bool {
    g[tile_of(py)][tile_of(px)] != WALL
}

/// Whether the tile under pixel `(x, y)` can be entered: anything but a wall.
pub fn movable(x: i32, y: i32, map: &Vec<Vec<i32>>) -> (r: bool)
    requires
        x >= 0,
        y >= 0,
        in_grid(cells(map), tile_of(x as int), tile_of(y as int)),
    ensures
        r == walkable_at(cells(map), x as int, y as int),
{
    let ty = as_tile(y);
    let tx = as_tile(x);
    map[ty][tx] != WALL
}

/// Overwrites the tile at column `x`, row `y`.
pub fn set_tile(map: &mut Vec<Vec<i32>>, x: usize, y: usize, v: i32)
    requires
        in_grid(cells(old(map)), x as int, y as int),
    ensures
        cells(final(map)) == with_cell(cells(old(map)), x as int, y as int, v),
{
    map[y][x] = v;
    assert(cells(final(map)) =~= with_cell(cells(old(map)), x as int, y as int, v));
}

/// The tile at `(x, y)` holds a treasure.
pub open spec fn holds_treasure(g: Seq<Seq<i32>>, x: int, y: int) -> bool {
    g[y][x] == TREASURE
}

/// The grid once the treasure at `(x, y)`, if any, has been collected.
pub open spec fn after_consume(g: Seq<Seq<i32>>, x: int, y: int) -> Seq<Seq<i32>> {
    if holds_treasure(g, x, y) {
        with_cell(g, x, y, FLOOR)
    } else {
        g
    }
}

/// What a tile code is drawn as.
#[derive(Clone, Copy, Debug, PartialEq, Eq, Structural)]
pub enum Tile {
    Floor,
    Wall,
    Treasure,
}

/// The tile kind of a code: wall and treasure by their codes, anything else
/// is drawn as floor.
pub fn tile_kind(code: i32) -> (r: Tile)
    ensures
        r == if code == WALL {
            Tile::Wall
        } else if code == TREASURE {
            Tile::Treasure
        } else {
            Tile::Floor
        },
{
    if code == WALL {
        Tile::Wall
    } else if code == TREASURE {
        Tile::Treasure
    } else {
        Tile::Floor
    }
}

/// Collects the treasure at tile `(x, y)`, if there is one: the tile becomes
/// floor and the result is `true`. Any other tile is left as it is.
pub fn consume_treasure_if_present(x: usize, y: usize, map: &mut Vec<Vec<i32>>) -> (r: bool)
    requires
        in_grid(cells(old(map)), x as int, y as int),
    ensures
        r == holds_treasure(cells(old(map)), x as int, y as int),
        cells(final(map)) == after_consume(cells(old(map)), x as int, y as int),
{
    if map[y][x] == TREASURE {
        set_tile(map, x, y, FLOOR);
        true
    } else {
        false
    }
}

/// Collecting at one tile twice: the first call finds a treasure exactly
/// where one lay and leaves floor behind it; the second finds nothing and
/// changes nothing.
pub proof fn lemma_consume_twice(g: Seq<Seq<i32>>, x: int, y: int)
    requires
        in_grid(g, x, y),
    ensures
        holds_treasure(g, x, y) ==> after_consume(g, x, y)[y][x] == FLOOR,
        !holds_treasure(after_consume(g, x, y), x, y),
        after_consume(after_consume(g, x, y), x, y) == after_consume(g, x, y),
{
}

} // verus!
