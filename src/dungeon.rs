use vstd::prelude::*;
use crate::grid::{
    after_consume, cells, holds_treasure, in_grid, set_tile, well_sized, with_cell, FLOOR,
    MAP_HEIGHT, MAP_WIDTH, TREASURE, WALL,
};
use crate::random::rnd_n;

verus! {

/// Number of treasures hidden in a fresh dungeon.
pub const TREASURE_COUNT: u32 = 3;

/// Walls on the outer ring of a fresh grid.
pub const RING_WALLS: u32 = 56;

/// Pillars the maze is carved from.
pub const PILLARS: u32 = 36;

/// Random draws tried before a rejection loop falls back to a fixed choice.
pub const MAX_DRAWS: u32 = 1000;

/// How many tiles of one row hold `v`.
pub open spec fn count_row(r: Seq<i32>, v: i32) -> nat
    decreases r.len(),
{
    if r.len() == 0 {
        0
    } else {
        count_row(r.drop_last(), v) + if r.last() == v {
            1nat
        } else {
            0nat
        }
    }
}

/// How many tiles of a grid hold `v`.
pub open spec fn count_tiles(g: Seq<Seq<i32>>, v: i32) -> nat
    decreases g.len(),
{
    if g.len() == 0 {
        0
    } else {
        count_tiles(g.drop_last(), v) + count_row(g.last(), v)
    }
}

/// `(x, y)` lies on the outer ring of the dungeon.
pub open spec fn on_border(x: int, y: int) -> bool {
    x == 0 || y == 0 || x == MAP_WIDTH - 1 || y == MAP_HEIGHT - 1
}

/// `(x, y)` is one of the even positions from which the maze is carved.
pub open spec fn is_pillar(x: int, y: int) -> bool {
    &&& 2 <= x < MAP_WIDTH - 2
    &&& 2 <= y < MAP_HEIGHT - 2
    &&& x % 2 == 0
    &&& y % 2 == 0
}

/// Both coordinates are odd: such a tile is never carved.
pub open spec fn is_room(x: int, y: int) -> bool {
    x % 2 == 1 && y % 2 == 1
}

/// Every tile holds one of the three codes and only codes up to `top`.
pub open spec fn codes_up_to(g: Seq<Seq<i32>>, top: i32) -> bool {
    forall|y: int, x: int| in_grid(g, x, y) ==> 0 <= #[trigger] g[y][x] <= top
}

/// The frame every dungeon keeps while it is built: its size, a closed outer
/// ring, and no wall on a tile with two odd coordinates.
pub open spec fn framed(g: Seq<Seq<i32>>) -> bool {
    &&& well_sized(g)
    &&& forall|y: int, x: int| in_grid(g, x, y) && on_border(x, y) ==> #[trigger] g[y][x] == WALL
    &&& forall|y: int, x: int| in_grid(g, x, y) && is_room(x, y) ==> #[trigger] g[y][x] != WALL
}

/// What a finished dungeon looks like: framed, every pillar a wall with a
/// wall stub next to it, no wall but those of the ring, the pillars and the
/// stub sites, no more walls than the ring, the pillars and one stub per
/// pillar, and exactly `TREASURE_COUNT` treasures, each on a tile that is no
/// wall.
pub open spec fn is_dungeon(g: Seq<Seq<i32>>) -> bool {
    &&& framed(g)
    &&& codes_up_to(g, TREASURE)
    &&& forall|y: int, x: int| is_pillar(x, y) ==> #[trigger] g[y][x] == WALL
    &&& forall|y: int, x: int| is_pillar(x, y) ==> #[trigger] has_stub(g, x, y)
    &&& walls_in_maze(g)
    &&& count_tiles(g, WALL) <= RING_WALLS + 2 * PILLARS
    &&& count_tiles(g, TREASURE) == TREASURE_COUNT
}

/// The tile that carving from `(x, y)` in direction `dir` turns into a wall:
/// 0 is up, 1 down, 2 left and 3 right.
pub open spec fn carve_target(x: int, y: int, dir: int) -> (int, int) {
    if dir == 0 {
        (x, y - 1)
    } else if dir == 1 {
        (x, y + 1)
    } else if dir == 2 {
        (x - 1, y)
    } else {
        (x + 1, y)
    }
}

/// Whether direction `dir` may be carved from `(x, y)`: up only from the
/// first column of pillars, the other three only onto a floor tile.
pub open spec fn carve_allowed(g: Seq<Seq<i32>>, x: int, y: int, dir: int) -> bool {
    if dir == 0 {
        x == 2
    } else if 1 <= dir <= 3 {
        g[carve_target(x, y, dir).1][carve_target(x, y, dir).0] == FLOOR
    } else {
        false
    }
}

/// `(x, y)` is where carving from some pillar in an admitted direction puts
/// a wall stub: up only from the first column of pillars.
pub open spec fn stub_site(x: int, y: int) -> bool {
    exists|px: int, py: int, dir: int|
        is_pillar(px, py) && 0 <= dir <= 3 && (dir != 0 || px == 2) && #[trigger] carve_target(
            px,
            py,
            dir,
        ) == (x, y)
}

/// Every wall of `g` is on the outer ring, on a pillar or on a stub site.
pub open spec fn walls_in_maze(g: Seq<Seq<i32>>) -> bool {
    forall|y: int, x: int|
        in_grid(g, x, y) && #[trigger] g[y][x] == WALL && !on_border(x, y) && !is_pillar(x, y)
            ==> stub_site(x, y)
}

proof fn lemma_count_row_update(r: Seq<i32>, i: int, w: i32, v: i32)
    requires
        0 <= i < r.len(),
    ensures
        count_row(r.update(i, w), v) + (if r[i] == v { 1int } else { 0int }) == count_row(r, v)
            + (if w == v { 1int } else { 0int }),
    decreases r.len(),
{
    let u = r.update(i, w);
    if i == r.len() - 1 {
        assert(u.drop_last() =~= r.drop_last());
    } else {
        assert(u.drop_last() =~= r.drop_last().update(i, w));
        lemma_count_row_update(r.drop_last(), i, w, v);
    }
}

/// Overwriting one tile changes the number of tiles holding `v` only by what
/// left and what came in.
pub proof fn lemma_count_update(g: Seq<Seq<i32>>, x: int, y: int, w: i32, v: i32)
    requires
        in_grid(g, x, y),
    ensures
        count_tiles(with_cell(g, x, y, w), v) + (if g[y][x] == v { 1int } else { 0int })
            == count_tiles(g, v) + (if w == v { 1int } else { 0int }),
    decreases g.len(),
{
    let u = with_cell(g, x, y, w);
    if y == g.len() - 1 {
        assert(u.drop_last() =~= g.drop_last());
        lemma_count_row_update(g[y], x, w, v);
    } else {
        assert(u.drop_last() =~= with_cell(g.drop_last(), x, y, w));
        lemma_count_update(g.drop_last(), x, y, w, v);
    }
}

proof fn lemma_count_row_absent(r: Seq<i32>, v: i32)
    requires
        forall|i: int| 0 <= i < r.len() ==> r[i] != v,
    ensures
        count_row(r, v) == 0,
    decreases r.len(),
{
    if r.len() > 0 {
        lemma_count_row_absent(r.drop_last(), v);
    }
}

/// A grid where no tile holds `v` counts none of it.
proof fn lemma_count_absent(g: Seq<Seq<i32>>, v: i32)
    requires
        forall|y: int, x: int| in_grid(g, x, y) ==> #[trigger] g[y][x] != v,
    ensures
        count_tiles(g, v) == 0,
    decreases g.len(),
{
    if g.len() > 0 {
        let h = g.drop_last();
        assert forall|y: int, x: int| in_grid(h, x, y) implies #[trigger] h[y][x] != v by {
            assert(in_grid(g, x, y));
        }
        lemma_count_absent(h, v);
        let last = g.last();
        assert forall|i: int| 0 <= i < last.len() implies last[i] != v by {
            assert(in_grid(g, i, g.len() - 1));
        }
        lemma_count_row_absent(last, v);
    }
}


/// One carving attempt from pillar `(x, y)` in direction `dir`. Where
/// `carve_allowed` holds, the target tile becomes a wall and the result is
/// `true`; otherwise nothing changes and the result is `false`.
pub fn carve_from(map: &mut Vec<Vec<i32>>, x: usize, y: usize, dir: u32) -> (r: bool)
    requires
        well_sized(cells(old(map))),
        1 <= x < MAP_WIDTH - 1,
        1 <= y < MAP_HEIGHT - 1,
    ensures
        r == carve_allowed(cells(old(map)), x as int, y as int, dir as int),
        cells(final(map)) == if r {
            with_cell(
                cells(old(map)),
                carve_target(x as int, y as int, dir as int).0,
                carve_target(x as int, y as int, dir as int).1,
                WALL,
            )
        } else {
            cells(old(map))
        },
{
    proof {
        let g = cells(map);
        assert(g[y as int - 1].len() == MAP_WIDTH);
        assert(g[y as int].len() == MAP_WIDTH);
        assert(g[y as int + 1].len() == MAP_WIDTH);
    }
    if dir == 0 {
        if x == 2 {
            set_tile(map, x, y - 1, WALL);
            true
        } else {
            false
        }
    } else if dir == 1 {
        if map[y + 1][x] == FLOOR {
            set_tile(map, x, y + 1, WALL);
            true
        } else {
            false
        }
    } else if dir == 2 {
        if map[y][x - 1] == FLOOR {
            set_tile(map, x - 1, y, WALL);
            true
        } else {
            false
        }
    } else if dir == 3 {
        if map[y][x + 1] == FLOOR {
            set_tile(map, x + 1, y, WALL);
            true
        } else {
            false
        }
    } else {
        false
    }
}

/// Hides a treasure at `(x, y)` if that tile is floor; reports whether it did.
pub fn place_treasure_at(map: &mut Vec<Vec<i32>>, x: usize, y: usize) -> (r: bool)
    requires
        in_grid(cells(old(map)), x as int, y as int),
    ensures
        r == (cells(old(map))[y as int][x as int] == FLOOR),
        cells(final(map)) == if r {
            with_cell(cells(old(map)), x as int, y as int, TREASURE)
        } else {
            cells(old(map))
        },
{
    if map[y][x] == FLOOR {
        set_tile(map, x, y, TREASURE);
        true
    } else {
        false
    }
}

/// The first floor tile in row-major order, if any.
fn first_floor(map: &Vec<Vec<i32>>) -> (r: Option<(usize, usize)>)
    ensures
        match r {
            Some((x, y)) => in_grid(cells(map), x as int, y as int) && cells(map)[y as int][x as int]
                == FLOOR,
            None => forall|y: int, x: int|
                in_grid(cells(map), x, y) ==> #[trigger] cells(map)[y][x] != FLOOR,
        },
{
    let mut y: usize = 0;
    while y < map.len()
        invariant
            0 <= y <= map@.len(),
            forall|j: int, i: int|
                0 <= j < y && in_grid(cells(map), i, j) ==> #[trigger] cells(map)[j][i] != FLOOR,
        decreases map@.len() - y,
    {
        let row = &map[y];
        let mut x: usize = 0;
        while x < row.len()
            invariant
                0 <= y < map@.len(),
                row@ == cells(map)[y as int],
                0 <= x <= row@.len(),
                forall|j: int, i: int|
                    0 <= j < y && in_grid(cells(map), i, j) ==> #[trigger] cells(map)[j][i]
                        != FLOOR,
                forall|i: int| 0 <= i < x ==> #[trigger] cells(map)[y as int][i] != FLOOR,
            decreases row@.len() - x,
        {
            if row[x] == FLOOR {
                return Some((x, y));
            }
            x += 1;
        }
        y += 1;
    }
    None
}

/// A grid whose outer ring is wall and whose inside is floor.
fn walled_field() -> (map: Vec<Vec<i32>>)
    ensures
        well_sized(cells(&map)),
        forall|y: int, x: int|
            in_grid(cells(&map), x, y) ==> #[trigger] cells(&map)[y][x] == if on_border(x, y) {
                WALL
            } else {
                FLOOR
            },
        count_tiles(cells(&map), WALL) <= RING_WALLS,
{
    let mut map: Vec<Vec<i32>> = Vec::new();
    let mut y: i32 = 0;
    while y < MAP_HEIGHT
        invariant
            0 <= y <= MAP_HEIGHT,
            map@.len() == y,
            forall|j: int| 0 <= j < y ==> #[trigger] map@[j]@.len() == MAP_WIDTH,
            forall|j: int, i: int|
                0 <= j < y && 0 <= i < MAP_WIDTH ==> #[trigger] map@[j]@[i] == if on_border(i, j) {
                    WALL
                } else {
                    FLOOR
                },
            count_tiles(cells(&map), WALL) <= 2 * y + (if y >= 1 { 13int } else { 0 }) + (if y
                >= MAP_HEIGHT { 13int } else { 0 }),
        decreases MAP_HEIGHT - y,
    {
        let mut row: Vec<i32> = Vec::new();
        let mut x: i32 = 0;
        while x < MAP_WIDTH
            invariant
                0 <= y < MAP_HEIGHT,
                0 <= x <= MAP_WIDTH,
                row@.len() == x,
                forall|i: int| 0 <= i < x ==> #[trigger] row@[i] == if on_border(i, y as int) {
                    WALL
                } else {
                    FLOOR
                },
                count_row(row@, WALL) <= if y == 0 || y == MAP_HEIGHT - 1 {
                    x as int
                } else {
                    (if x > 0 { 1int } else { 0 }) + (if x >= MAP_WIDTH { 1int } else { 0 })
                },
            decreases MAP_WIDTH - x,
        {
            let ghost prev = row@;
            if y == 0 || y == MAP_HEIGHT - 1 || x == 0 || x == MAP_WIDTH - 1 {
                row.push(WALL);
            } else {
                row.push(FLOOR);
            }
            assert(row@.drop_last() =~= prev);
            x += 1;
        }
        let ghost prev = cells(&map);
        map.push(row);
        assert(cells(&map).drop_last() =~= prev);
        y += 1;
    }
    map
}


/// Every wall of `g` is still a wall in `h`.
pub open spec fn walls_kept(g: Seq<Seq<i32>>, h: Seq<Seq<i32>>) -> bool {
    forall|y: int, x: int| in_grid(g, x, y) && g[y][x] == WALL ==> #[trigger] h[y][x] == WALL
}

/// `h` is `g` with one more treasure, hidden on a tile that was floor.
pub open spec fn one_more_treasure(g: Seq<Seq<i32>>, h: Seq<Seq<i32>>) -> bool {
    exists|y: int, x: int|
        in_grid(g, x, y) && g[y][x] == FLOOR && h == #[trigger] with_cell(g, x, y, TREASURE)
}

proof fn lemma_carve_keeps_walls(
    g: Seq<Seq<i32>>,
    h: Seq<Seq<i32>>,
    x: int,
    y: int,
    dir: int,
    carved: bool,
)
    requires
        well_sized(g),
        well_sized(h),
        walls_kept(g, h),
        is_pillar(x, y),
    ensures
        ({
            let t = carve_target(x, y, dir);
            let h2 = if carved {
                with_cell(h, t.0, t.1, WALL)
            } else {
                h
            };
            walls_kept(g, h2)
        }),
{
    let t = carve_target(x, y, dir);
    if carved {
        let h2 = with_cell(h, t.0, t.1, WALL);
        assert forall|cy: int, cx: int| in_grid(g, cx, cy) && g[cy][cx] == WALL implies #[trigger] h2[cy][cx]
            == WALL by {
            assert(h[cy][cx] == WALL);
        }
    }
}

/// `(cx, cy)` is pillar `(x, y)` itself or one of its four neighbours.
pub open spec fn near(cx: int, cy: int, x: int, y: int) -> bool {
    ||| cx == x && y - 1 <= cy <= y + 1
    ||| cy == y && (cx == x - 1 || cx == x + 1)
}

/// `h` differs from `g` at most on pillar `(x, y)` and its neighbours.
pub open spec fn changed_near(g: Seq<Seq<i32>>, h: Seq<Seq<i32>>, x: int, y: int) -> bool {
    forall|cy: int, cx: int| in_grid(g, cx, cy) && !near(cx, cy, x, y) ==> #[trigger] h[cy][cx] == g[cy][cx]
}

/// Pillar `(x, y)` has a wall stub in one of the directions that carving
/// may take from it.
pub open spec fn has_stub(g: Seq<Seq<i32>>, x: int, y: int) -> bool {
    exists|dir: int| 0 <= dir <= 3 && (dir != 0 || x == 2) && #[trigger] g[carve_target(x, y, dir).1][carve_target(x, y, dir).0] == WALL
}

proof fn lemma_stub_kept(g: Seq<Seq<i32>>, h: Seq<Seq<i32>>, x: int, y: int)
    requires
        well_sized(g),
        is_pillar(x, y),
        has_stub(g, x, y),
        walls_kept(g, h),
    ensures
        has_stub(h, x, y),
{
    let dir = choose|dir: int| 0 <= dir <= 3 && (dir != 0 || x == 2) && #[trigger] g[carve_target(x, y, dir).1][carve_target(x, y, dir).0] == WALL;
    let t = carve_target(x, y, dir);
    assert(in_grid(g, t.0, t.1));
    assert(h[t.1][t.0] == WALL);
}

proof fn lemma_carve_in_maze(g: Seq<Seq<i32>>, x: int, y: int, dir: int, carved: bool)
    requires
        well_sized(g),
        walls_in_maze(g),
        is_pillar(x, y),
        carved ==> carve_allowed(g, x, y, dir),
    ensures
        ({
            let t = carve_target(x, y, dir);
            walls_in_maze(if carved { with_cell(g, t.0, t.1, WALL) } else { g })
        }),
{
    let t = carve_target(x, y, dir);
    if carved {
        let h = with_cell(g, t.0, t.1, WALL);
        assert forall|cy: int, cx: int|
            in_grid(h, cx, cy) && #[trigger] h[cy][cx] == WALL && !on_border(cx, cy) && !is_pillar(
                cx,
                cy,
            ) implies stub_site(cx, cy) by {
            if cx == t.0 && cy == t.1 {
                assert(carve_target(x, y, dir) == (cx, cy));
            } else {
                assert(g[cy][cx] == WALL);
            }
        }
    }
}

/// Turns pillar `(x, y)` into a wall and attaches one wall stub to it in a
/// direction that `carve_allowed` admits. Directions are drawn at random; if
/// `MAX_DRAWS` draws are all refused, the first admitted one is taken.
fn carve_pillar(map: &mut Vec<Vec<i32>>, x: usize, y: usize)
    requires
        framed(cells(old(map))),
        codes_up_to(cells(old(map)), WALL),
        is_pillar(x as int, y as int),
        x == 2 || cells(old(map))[y as int][x + 1] == FLOOR,
        walls_in_maze(cells(old(map))),
    ensures
        walls_in_maze(cells(final(map))),
        count_tiles(cells(final(map)), WALL) <= count_tiles(cells(old(map)), WALL) + 2,
        framed(cells(final(map))),
        codes_up_to(cells(final(map)), WALL),
        walls_kept(cells(old(map)), cells(final(map))),
        changed_near(cells(old(map)), cells(final(map)), x as int, y as int),
        cells(final(map))[y as int][x as int] == WALL,
        has_stub(cells(final(map)), x as int, y as int),
{
    set_tile(map, x, y, WALL);
    let ghost marked = cells(map);
    proof {
        lemma_count_update(cells(old(map)), x as int, y as int, WALL, WALL);
    }
    assert(walls_in_maze(marked)) by {
        assert forall|cy: int, cx: int|
            in_grid(marked, cx, cy) && #[trigger] marked[cy][cx] == WALL && !on_border(cx, cy)
                && !is_pillar(cx, cy) implies stub_site(cx, cy) by {
            assert(cells(old(map))[cy][cx] == WALL);
        }
    }
    let mut done = false;
    let mut tries: u32 = 0;
    while !done && tries < MAX_DRAWS
        invariant
            is_pillar(x as int, y as int),
            framed(cells(old(map))),
            framed(cells(map)),
            codes_up_to(cells(map), WALL),
            walls_kept(cells(old(map)), cells(map)),
            changed_near(cells(old(map)), cells(map), x as int, y as int),
            cells(map)[y as int][x as int] == WALL,
            walls_in_maze(cells(map)),
            count_tiles(marked, WALL) <= count_tiles(cells(old(map)), WALL) + 1,
            count_tiles(cells(map), WALL) <= count_tiles(marked, WALL) + if done {
                1int
            } else {
                0
            },
            marked == with_cell(cells(old(map)), x as int, y as int, WALL),
            !done ==> cells(map) == marked,
            done ==> has_stub(cells(map), x as int, y as int),
        decreases MAX_DRAWS - tries,
    {
        let dir = rnd_n(4);
        let ghost before = cells(map);
        done = carve_from(map, x, y, dir);
        proof {
            lemma_carve_keeps_walls(cells(old(map)), before, x as int, y as int, dir as int, done);
            lemma_carve_in_maze(before, x as int, y as int, dir as int, done);
            if done {
                let t = carve_target(x as int, y as int, dir as int);
                lemma_count_update(before, t.0, t.1, WALL, WALL);
            }
            if done {
                let t = carve_target(x as int, y as int, dir as int);
                assert(cells(map)[t.1][t.0] == WALL);
            }
        }
        tries += 1;
    }
    let mut dir: u32 = 0;
    while !done && dir < 4
        invariant
            is_pillar(x as int, y as int),
            framed(cells(old(map))),
            framed(cells(map)),
            codes_up_to(cells(map), WALL),
            walls_kept(cells(old(map)), cells(map)),
            changed_near(cells(old(map)), cells(map), x as int, y as int),
            cells(map)[y as int][x as int] == WALL,
            walls_in_maze(cells(map)),
            count_tiles(marked, WALL) <= count_tiles(cells(old(map)), WALL) + 1,
            count_tiles(cells(map), WALL) <= count_tiles(marked, WALL) + if done {
                1int
            } else {
                0
            },
            marked == with_cell(cells(old(map)), x as int, y as int, WALL),
            !done ==> cells(map) == marked,
            !done ==> forall|d: int| 0 <= d < dir ==> !carve_allowed(marked, x as int, y as int, d),
            done ==> has_stub(cells(map), x as int, y as int),
            dir <= 4,
        decreases 4 - dir,
    {
        let ghost before = cells(map);
        done = carve_from(map, x, y, dir);
        proof {
            lemma_carve_keeps_walls(cells(old(map)), before, x as int, y as int, dir as int, done);
            lemma_carve_in_maze(before, x as int, y as int, dir as int, done);
            if done {
                let t = carve_target(x as int, y as int, dir as int);
                lemma_count_update(before, t.0, t.1, WALL, WALL);
            }
            if done {
                let t = carve_target(x as int, y as int, dir as int);
                assert(cells(map)[t.1][t.0] == WALL);
            }
        }
        dir += 1;
    }
    proof {
        if !done {
            if x == 2 {
                assert(carve_allowed(marked, x as int, y as int, 0));
            } else {
                assert(carve_allowed(marked, x as int, y as int, 3));
            }
        }
    }
}

/// Three treasures on the first three rooms of the top corridor leave no
/// room for fewer than three in the count.
proof fn lemma_three_treasures(g: Seq<Seq<i32>>)
    requires
        well_sized(g),
        g[1][1] == TREASURE,
        g[1][3] == TREASURE,
        g[1][5] == TREASURE,
    ensures
        count_tiles(g, TREASURE) >= 3,
{
    let g1 = with_cell(g, 1, 1, FLOOR);
    lemma_count_update(g, 1, 1, FLOOR, TREASURE);
    let g2 = with_cell(g1, 3, 1, FLOOR);
    lemma_count_update(g1, 3, 1, FLOOR, TREASURE);
    lemma_count_update(g2, 5, 1, FLOOR, TREASURE);
}

/// Hides one treasure on a floor tile. Tiles are drawn at random over the
/// whole grid until one is floor; if `MAX_DRAWS` draws all miss, the first
/// floor tile in row-major order is taken.
fn hide_treasure(map: &mut Vec<Vec<i32>>)
    requires
        framed(cells(old(map))),
        codes_up_to(cells(old(map)), TREASURE),
        count_tiles(cells(old(map)), TREASURE) < TREASURE_COUNT,
    ensures
        one_more_treasure(cells(old(map)), cells(final(map))),
{
    let mut placed = false;
    let mut tries: u32 = 0;
    while !placed && tries < MAX_DRAWS
        invariant
            well_sized(cells(old(map))),
            if placed {
                one_more_treasure(cells(old(map)), cells(map))
            } else {
                cells(map) == cells(old(map))
            },
        decreases MAX_DRAWS - tries,
    {
        let x = rnd_n(MAP_WIDTH as u32) as usize;
        let y = rnd_n(MAP_HEIGHT as u32) as usize;
        let ghost before = cells(map);
        placed = place_treasure_at(map, x, y);
        if placed {
            assert(before[y as int][x as int] == FLOOR
                && cells(map) == with_cell(before, x as int, y as int, TREASURE));
        }
        tries += 1;
    }
    if !placed {
        match first_floor(map) {
            Some((x, y)) => {
                place_treasure_at(map, x, y);
                assert(cells(old(map))[y as int][x as int] == FLOOR);
            },
            None => {
                proof {
                    let g = cells(map);
                    assert(in_grid(g, 1, 1) && is_room(1, 1));
                    assert(in_grid(g, 3, 1) && is_room(3, 1));
                    assert(in_grid(g, 5, 1) && is_room(5, 1));
                    assert(g[1][1] != FLOOR && g[1][3] != FLOOR && g[1][5] != FLOOR);
                    lemma_three_treasures(g);
                }
            },
        }
    }
}

/// Builds a fresh dungeon: a walled square, a maze of wall stubs carved from
/// every pillar, and `TREASURE_COUNT` treasures on floor tiles.
pub fn gen_dungeon() -> (map: Vec<Vec<i32>>)
    ensures
        is_dungeon(cells(&map)),
{
    let mut map = walled_field();
    let mut y: usize = 2;
    while y < (MAP_HEIGHT - 2) as usize
        invariant
            framed(cells(&map)),
            codes_up_to(cells(&map), WALL),
            walls_in_maze(cells(&map)),
            count_tiles(cells(&map), WALL) <= RING_WALLS + 6 * (y - 2),
            2 <= y <= MAP_HEIGHT - 1,
            y % 2 == 0,
            forall|cy: int, cx: int|
                is_pillar(cx, cy) && cy < y ==> #[trigger] cells(&map)[cy][cx] == WALL,
            forall|cy: int, cx: int|
                is_pillar(cx, cy) && cy < y ==> #[trigger] has_stub(cells(&map), cx, cy),
            forall|cy: int, cx: int|
                is_pillar(cx - 1, cy) && cy >= y ==> #[trigger] cells(&map)[cy][cx] == FLOOR,
        decreases MAP_HEIGHT - y,
    {
        let mut x: usize = 2;
        while x < (MAP_WIDTH - 2) as usize
            invariant
                framed(cells(&map)),
                codes_up_to(cells(&map), WALL),
                walls_in_maze(cells(&map)),
                count_tiles(cells(&map), WALL) <= RING_WALLS + 6 * (y - 2) + (x - 2),
                2 <= y < MAP_HEIGHT - 2,
                y % 2 == 0,
                2 <= x <= MAP_WIDTH - 1,
                x % 2 == 0,
                forall|cy: int, cx: int|
                    is_pillar(cx, cy) && (cy < y || (cy == y && cx < x)) ==> #[trigger] cells(
                        &map,
                    )[cy][cx] == WALL,
                forall|cy: int, cx: int|
                    is_pillar(cx, cy) && (cy < y || (cy == y && cx < x)) ==> #[trigger] has_stub(
                        cells(&map),
                        cx,
                        cy,
                    ),
                forall|cy: int, cx: int|
                    is_pillar(cx - 1, cy) && (cy > y || (cy == y && cx > x)) ==> #[trigger] cells(
                        &map,
                    )[cy][cx] == FLOOR,
            decreases MAP_WIDTH - x,
        {
            let ghost before = cells(&map);
            proof {
                if x != 2 {
                    assert(is_pillar(x as int, y as int));
                    assert(before[y as int][x + 1] == FLOOR);
                }
            }
            carve_pillar(&mut map, x, y);
            let ghost after = cells(&map);
            assert forall|cy: int, cx: int|
                is_pillar(cx, cy) && (cy < y || (cy == y && cx < x + 2)) implies #[trigger] after[cy][cx]
                == WALL by {
                if cy < y || (cy == y && cx < x) {
                    assert(before[cy][cx] == WALL);
                    assert(in_grid(before, cx, cy));
                }
            }
            assert forall|cy: int, cx: int|
                is_pillar(cx, cy) && (cy < y || (cy == y && cx < x + 2)) implies #[trigger] has_stub(
                after,
                cx,
                cy,
            ) by {
                if cy < y || (cy == y && cx < x) {
                    lemma_stub_kept(before, after, cx, cy);
                }
            }
            assert forall|cy: int, cx: int|
                is_pillar(cx - 1, cy) && (cy > y || (cy == y && cx > x + 2)) implies #[trigger] after[cy][cx]
                == FLOOR by {
                assert(in_grid(before, cx, cy));
                assert(!near(cx, cy, x as int, y as int));
            }
            x += 2;
        }
        assert forall|cy: int, cx: int| is_pillar(cx - 1, cy) && cy >= y + 2 implies #[trigger] cells(
            &map,
        )[cy][cx] == FLOOR by {
            assert(cy > y);
        }
        y += 2;
    }
    proof {
        lemma_count_absent(cells(&map), TREASURE);
        assert(walls_in_maze(cells(&map)));
    }
    let mut k: u32 = 0;
    while k < TREASURE_COUNT
        invariant
            k <= TREASURE_COUNT,
            framed(cells(&map)),
            codes_up_to(cells(&map), TREASURE),
            walls_in_maze(cells(&map)),
            count_tiles(cells(&map), WALL) <= RING_WALLS + 2 * PILLARS,
            forall|cy: int, cx: int| is_pillar(cx, cy) ==> #[trigger] cells(&map)[cy][cx] == WALL,
            forall|cy: int, cx: int| is_pillar(cx, cy) ==> #[trigger] has_stub(cells(&map), cx, cy),
            count_tiles(cells(&map), TREASURE) == k,
        decreases TREASURE_COUNT - k,
    {
        let ghost before = cells(&map);
        hide_treasure(&mut map);
        proof {
            let (ty, tx) = choose|ty: int, tx: int|
                in_grid(before, tx, ty) && before[ty][tx] == FLOOR && cells(&map)
                    == #[trigger] with_cell(before, tx, ty, TREASURE);
            lemma_count_update(before, tx, ty, TREASURE, TREASURE);
            lemma_count_update(before, tx, ty, TREASURE, WALL);
            let after = cells(&map);
            assert forall|cy: int, cx: int| in_grid(before, cx, cy) && before[cy][cx] == WALL implies #[trigger] after[cy][cx] == WALL by {}
            assert forall|cy: int, cx: int|
                in_grid(after, cx, cy) && #[trigger] after[cy][cx] == WALL && !on_border(cx, cy)
                    && !is_pillar(cx, cy) implies stub_site(cx, cy) by {
                assert(before[cy][cx] == WALL);
            }
            assert forall|cy: int, cx: int| is_pillar(cx, cy) implies #[trigger] has_stub(after, cx, cy) by {
                lemma_stub_kept(before, after, cx, cy);
            }
        }
        k += 1;
    }
    map
}


/// In every dungeon the top corridor is open but for the stub that the first
/// column of pillars may raise: only carving up, which only that column may
/// do, reaches row 1.
pub proof fn lemma_top_corridor_open(g: Seq<Seq<i32>>, x: int)
    requires
        is_dungeon(g),
        1 <= x < MAP_WIDTH - 1,
        x != 2,
    ensures
        g[1][x] != WALL,
{
    if g[1][x] == WALL {
        assert(in_grid(g, x, 1) && !on_border(x, 1) && !is_pillar(x, 1));
        assert(stub_site(x, 1));
        let (px, py, dir) = choose|px: int, py: int, dir: int|
            is_pillar(px, py) && 0 <= dir <= 3 && (dir != 0 || px == 2) && #[trigger] carve_target(
                px,
                py,
                dir,
            ) == (x, 1int);
        assert(false);
    }
}

/// Collecting a treasure takes exactly one treasure off the count; every
/// other tile stays as it was.
pub proof fn lemma_consume_count(g: Seq<Seq<i32>>, x: int, y: int)
    requires
        in_grid(g, x, y),
        holds_treasure(g, x, y),
    ensures
        count_tiles(after_consume(g, x, y), TREASURE) + 1 == count_tiles(g, TREASURE),
        after_consume(g, x, y)[y][x] == FLOOR,
        forall|cy: int, cx: int|
            in_grid(g, cx, cy) && (cx != x || cy != y) ==> #[trigger] after_consume(g, x, y)[cy][cx]
                == g[cy][cx],
{
    lemma_count_update(g, x, y, FLOOR, TREASURE);
}

} // verus!
