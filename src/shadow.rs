use vstd::prelude::*;
use crate::grid::{tile_of, MAP_HEIGHT, MAP_WIDTH, TILE_SIZE};
use crate::sprite::Sprite;

verus! {

/// How much of a tile the fog of war hides.
#[derive(Clone, Copy, Debug, PartialEq, Eq, Structural)]
pub enum Shade {
    /// Fully visible: no overlay.
    Clear,
    /// Partly obscured.
    Light,
    /// Fully obscured.
    Dark,
}

/// Chebyshev distance between tiles `(ax, ay)` and `(bx, by)`.
pub open spec fn chebyshev(ax: int, ay: int, bx: int, by: int) -> int {
    let dx = if ax >= bx { ax - bx } else { bx - ax };
    let dy = if ay >= by { ay - by } else { by - ay };
    if dx >= dy { dx } else { dy }
}

/// The band of a tile at Chebyshev distance `d` from the player.
pub open spec fn shade_for(d: int) -> Shade {
    if d > 2 {
        Shade::Dark
    } else if d > 1 {
        Shade::Light
    } else {
        Shade::Clear
    }
}

/// The shade of tile `(x, y)` seen from the sprite's pixel position.
pub open spec fn shade_of(player: Sprite, x: int, y: int) -> Shade {
    shade_for(chebyshev(tile_of(player.x as int), tile_of(player.y as int), x, y))
}

/// The shade of tile `(x, y)` for a player standing on the map.
pub fn shade_at(player: &Sprite, x: i32, y: i32) -> (r: Shade)
    requires
        player.x >= 0,
        player.y >= 0,
        0 <= x < MAP_WIDTH,
        0 <= y < MAP_HEIGHT,
    ensures
        r == shade_of(*player, x as int, y as int),
{
    let px = player.x / TILE_SIZE;
    let py = player.y / TILE_SIZE;
    let dx = if x >= px { x - px } else { px - x };
    let dy = if y >= py { y - py } else { py - y };
    if dx > 2 || dy > 2 {
        Shade::Dark
    } else if dx > 1 || dy > 1 {
        Shade::Light
    } else {
        Shade::Clear
    }
}

/// The fog over the whole map, row by row.
pub fn shadow_map(player: &Sprite) -> (r: Vec<Vec<Shade>>)
    requires
        player.x >= 0,
        player.y >= 0,
    ensures
        r@.len() == MAP_HEIGHT,
        forall|y: int| 0 <= y < MAP_HEIGHT ==> #[trigger] r@[y]@.len() == MAP_WIDTH,
        forall|y: int, x: int|
            0 <= y < MAP_HEIGHT && 0 <= x < MAP_WIDTH ==> #[trigger] r@[y]@[x] == shade_of(
                *player,
                x,
                y,
            ),
{
    let mut rows: Vec<Vec<Shade>> = Vec::new();
    let mut y: i32 = 0;
    while y < MAP_HEIGHT
        invariant
            player.x >= 0,
            player.y >= 0,
            0 <= y <= MAP_HEIGHT,
            rows@.len() == y,
            forall|j: int| 0 <= j < y ==> #[trigger] rows@[j]@.len() == MAP_WIDTH,
            forall|j: int, i: int|
                0 <= j < y && 0 <= i < MAP_WIDTH ==> #[trigger] rows@[j]@[i] == shade_of(
                    *player,
                    i,
                    j,
                ),
        decreases MAP_HEIGHT - y,
    {
        let mut row: Vec<Shade> = Vec::new();
        let mut x: i32 = 0;
        while x < MAP_WIDTH
            invariant
                player.x >= 0,
                player.y >= 0,
                0 <= y < MAP_HEIGHT,
                0 <= x <= MAP_WIDTH,
                row@.len() == x,
                forall|i: int| 0 <= i < x ==> #[trigger] row@[i] == shade_of(*player, i, y as int),
            decreases MAP_WIDTH - x,
        {
            row.push(shade_at(player, x, y));
            x += 1;
        }
        rows.push(row);
        y += 1;
    }
    rows
}

} // verus!
