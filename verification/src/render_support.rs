//! Pure helpers for the external renderer: choosing the box-drawing glyph
//! a wall tile is displayed with, from its revealed wall neighbors.

use vstd::prelude::*;

use crate::map::{tile_idx, GameMap, TileType};

verus! {

/// The cell is on the map, revealed, and a wall.
pub open spec fn spec_revealed_wall(m: GameMap, x: int, y: int) -> bool {
    &&& m.spec_in_bounds(x, y)
    &&& m.tiles@[tile_idx(m.width as int, x, y)] is Wall
    &&& m.revealed_tiles@[tile_idx(m.width as int, x, y)]
}

/// The four-bit neighbor mask: north, south, west, east.
pub open spec fn spec_wall_mask(m: GameMap, x: int, y: int) -> int {
    (if spec_revealed_wall(m, x, y - 1) {
        1int
    } else {
        0int
    }) + (if spec_revealed_wall(m, x, y + 1) {
        2int
    } else {
        0int
    }) + (if spec_revealed_wall(m, x - 1, y) {
        4int
    } else {
        0int
    }) + (if spec_revealed_wall(m, x + 1, y) {
        8int
    } else {
        0int
    })
}

/// The code-page-437 glyph for a wall with the given neighbor mask.
pub open spec fn spec_wall_glyph(mask: int) -> u16 {
    if mask == 0 {
        9u16
    } else if mask == 1 || mask == 2 || mask == 3 {
        186u16
    } else if mask == 4 || mask == 8 || mask == 12 {
        205u16
    } else if mask == 5 {
        188u16
    } else if mask == 6 {
        187u16
    } else if mask == 7 {
        185u16
    } else if mask == 9 {
        200u16
    } else if mask == 10 {
        201u16
    } else if mask == 11 {
        204u16
    } else if mask == 14 {
        203u16
    } else if mask == 13 {
        202u16
    } else if mask == 15 {
        206u16
    } else {
        35u16
    }
}

/// True if (`x`, `y`) is on the map, revealed, and a wall.
pub fn is_revealed_and_wall(map: &GameMap, x: i32, y: i32) -> (r: bool)
    requires
        map.wf(),
    ensures
        r == spec_revealed_wall(*map, x as int, y as int),
{
    if !map.in_bounds(x, y) {
        return false;
    }
    let idx = map.xy_idx(x, y);
    map.tiles[idx] == TileType::Wall && map.revealed_tiles[idx]
}

/// The glyph to draw a wall at (`x`, `y`) with, chosen from its revealed
/// wall neighbors; a pillar glyph when nothing adjoins, a plain block at
/// the map border.
pub fn wall_glyph(map: &GameMap, x: i32, y: i32) -> (r: u16)
    requires
        map.wf(),
    ensures
        (1 <= x < map.width - 1 && 1 <= y < map.height - 1) ==> r == spec_wall_glyph(
            spec_wall_mask(*map, x as int, y as int),
        ),
        !(1 <= x < map.width - 1 && 1 <= y < map.height - 1) ==> r == 35,
{
    if x < 1 || x > map.width - 2 || y < 1 || y > map.height - 2 {
        return 35;
    }
    let mut mask: u8 = 0;
    if is_revealed_and_wall(map, x, y - 1) {
        mask = mask + 1;
    }
    if is_revealed_and_wall(map, x, y + 1) {
        mask = mask + 2;
    }
    if is_revealed_and_wall(map, x - 1, y) {
        mask = mask + 4;
    }
    if is_revealed_and_wall(map, x + 1, y) {
        mask = mask + 8;
    }
    proof {
        assert(mask as int == spec_wall_mask(*map, x as int, y as int));
    }
    match mask {
        0 => 9,
        1 => 186,
        2 => 186,
        3 => 186,
        4 => 205,
        5 => 188,
        6 => 187,
        7 => 185,
        8 => 205,
        9 => 200,
        10 => 201,
        11 => 204,
        12 => 205,
        13 => 202,
        14 => 203,
        15 => 206,
        _ => 35,
    }
}

} // verus!
