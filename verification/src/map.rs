//! The dungeon level map: tile grid, room list, and per-tile indices.

use vstd::prelude::*;

use crate::entity::Entity;
use crate::rect::Rect;

verus! {

/// Map width in tiles.
pub const MAPWIDTH: usize = 80;

/// Map height in tiles; the rows below are reserved for the UI console.
pub const MAPHEIGHT: usize = 43;

/// Total number of tiles in a map.
pub const MAPSIZE: usize = MAPWIDTH * MAPHEIGHT;

/// All possible tile types.
#[derive(PartialEq, Eq, Copy, Clone, Structural, Debug)]
pub enum TileType {
    Wall,
    Floor,
    DownStairs,
}

/// The flattened row-major index of cell (`x`, `y`) in a grid `w` wide.
pub open spec fn tile_idx(w: int, x: int, y: int) -> int {
    y * w + x
}

/// The cell lies inside a `w` by `h` grid.
pub open spec fn in_map(w: int, h: int, x: int, y: int) -> bool {
    0 <= x < w && 0 <= y < h
}

/// An in-bounds cell has an in-range flattened index.
pub proof fn lemma_tile_idx_bounds(w: int, h: int, x: int, y: int)
    requires
        in_map(w, h, x, y),
    ensures
        0 <= tile_idx(w, x, y) < w * h,
{
    assert(0 <= y * w + x < w * h) by (nonlinear_arith)
        requires
            0 <= x < w,
            0 <= y < h,
    ;
}

/// Distinct in-bounds cells have distinct flattened indices.
pub proof fn lemma_tile_idx_injective(w: int, h: int, x1: int, y1: int, x2: int, y2: int)
    requires
        in_map(w, h, x1, y1),
        in_map(w, h, x2, y2),
        tile_idx(w, x1, y1) == tile_idx(w, x2, y2),
    ensures
        x1 == x2 && y1 == y2,
{
    assert(x1 == x2 && y1 == y2) by (nonlinear_arith)
        requires
            0 <= x1 < w,
            0 <= y1 < h,
            0 <= x2 < w,
            0 <= y2 < h,
            y1 * w + x1 == y2 * w + x2,
    ;
}

/// A level map: all the tiles, rooms, and per-tile indices that constitute
/// the level's layout and its per-tick occupancy bookkeeping.
#[derive(Clone, Debug)]
pub struct GameMap {
    /// All map tiles, row-major; see [`Self::xy_idx`].
    pub tiles: Vec<TileType>,
    /// All rooms contained in this map.
    pub rooms: Vec<Rect>,
    /// Map width in tiles.
    pub width: i32,
    /// Map height in tiles.
    pub height: i32,
    /// Tiles the player has ever seen; never unset within a level.
    pub revealed_tiles: Vec<bool>,
    /// Tiles the player can currently see.
    pub visible_tiles: Vec<bool>,
    /// Tiles that cannot be entered this tick: walls, or a blocking entity.
    pub blocked: Vec<bool>,
    /// The entities standing on each tile; rebuilt every tick.
    pub tile_content: Vec<Vec<Entity>>,
    /// Dungeon depth of this level, starting at 1.
    pub depth: i32,
}

impl GameMap {
    /// Grid dimensions are sane and every per-tile array matches them.
    pub open spec fn wf(self) -> bool {
        &&& 3 <= self.width <= 1000
        &&& 3 <= self.height <= 1000
        &&& self.tiles@.len() == self.width * self.height
        &&& self.revealed_tiles@.len() == self.width * self.height
        &&& self.visible_tiles@.len() == self.width * self.height
        &&& self.blocked@.len() == self.width * self.height
        &&& self.tile_content@.len() == self.width * self.height
    }

    /// The flattened index of (`x`, `y`).
    pub open spec fn spec_idx(self, x: int, y: int) -> int {
        tile_idx(self.width as int, x, y)
    }

    /// The cell lies on this map.
    pub open spec fn spec_in_bounds(self, x: int, y: int) -> bool {
        in_map(self.width as int, self.height as int, x, y)
    }

    /// Convert (x, y) coordinates to an index into [`Self::tiles`].
    pub fn xy_idx(&self, x: i32, y: i32) -> (r: usize)
        requires
            self.wf(),
            self.spec_in_bounds(x as int, y as int),
        ensures
            r == self.spec_idx(x as int, y as int),
            r < self.tiles@.len(),
    {
        proof {
            lemma_tile_idx_bounds(self.width as int, self.height as int, x as int, y as int);
            assert(self.width * self.height <= 1000 * 1000) by (nonlinear_arith)
                requires
                    3 <= self.width <= 1000,
                    3 <= self.height <= 1000,
            ;
            assert(0 <= (y as int) * (self.width as int)) by (nonlinear_arith)
                requires
                    0 <= y,
                    0 < self.width,
            ;
        }
        (y as usize) * (self.width as usize) + x as usize
    }

    /// True if (`x`, `y`) lies on this map.
    pub fn in_bounds(&self, x: i32, y: i32) -> (r: bool)
        ensures
            r == self.spec_in_bounds(x as int, y as int),
    {
        0 <= x && x < self.width && 0 <= y && y < self.height
    }

    /// Overwrite the tile at an in-bounds cell, leaving every other cell and
    /// every other field unchanged.
    fn set_tile(&mut self, x: i32, y: i32, t: TileType)
        requires
            old(self).wf(),
            old(self).spec_in_bounds(x as int, y as int),
        ensures
            final(self).wf(),
            *final(self) == (GameMap { tiles: final(self).tiles, ..*old(self) }),
            final(self).tiles@.len() == old(self).tiles@.len(),
            final(self).tiles@[tile_idx(old(self).width as int, x as int, y as int)] == t,
            forall|xx: int, yy: int|
                old(self).spec_in_bounds(xx, yy) && !(xx == x as int && yy == y as int)
                    ==> final(self).tiles@[#[trigger] tile_idx(old(self).width as int, xx, yy)]
                    == old(self).tiles@[tile_idx(old(self).width as int, xx, yy)],
    {
        let idx = self.xy_idx(x, y);
        self.tiles.set(idx, t);
        proof {
            assert forall|xx: int, yy: int|
                old(self).spec_in_bounds(xx, yy) && !(xx == x as int && yy == y as int) implies
                final(self).tiles@[#[trigger] tile_idx(old(self).width as int, xx, yy)]
                == old(self).tiles@[tile_idx(old(self).width as int, xx, yy)] by {
                lemma_tile_idx_bounds(self.width as int, self.height as int, xx, yy);
                if old(self).spec_idx(xx, yy) == old(self).spec_idx(x as int, y as int) {
                    lemma_tile_idx_injective(
                        self.width as int,
                        self.height as int,
                        xx,
                        yy,
                        x as int,
                        y as int,
                    );
                }
            }
        }
    }

    /// Populate [`Self::blocked`] from the statically-blocked (wall) tiles.
    pub fn populate_blocked(&mut self)
        requires
            old(self).wf(),
        ensures
            final(self).wf(),
            *final(self) == (GameMap { blocked: final(self).blocked, ..*old(self) }),
            final(self).blocked@.len() == old(self).blocked@.len(),
            forall|i: int|
                0 <= i < old(self).tiles@.len() ==> final(self).blocked@[i] == (old(
                    self,
                ).tiles@[i] is Wall),
    {
        let n = self.tiles.len();
        let mut i: usize = 0;
        while i < n
            invariant
                self.wf(),
                n == self.tiles@.len(),
                i <= n,
                *self == (GameMap { blocked: self.blocked, ..*old(self) }),
                self.blocked@.len() == old(self).blocked@.len(),
                forall|k: int| 0 <= k < i ==> self.blocked@[k] == (old(self).tiles@[k] is Wall),
                forall|k: int|
                    i <= k < n ==> self.blocked@[k] == old(self).blocked@[k],
            decreases n - i,
        {
            let is_wall = match self.tiles[i] {
                TileType::Wall => true,
                _ => false,
            };
            self.blocked.set(i, is_wall);
            i = i + 1;
        }
    }

    /// Clear every per-tile entity list in [`Self::tile_content`].
    pub fn clear_content_index(&mut self)
        requires
            old(self).wf(),
        ensures
            final(self).wf(),
            *final(self) == (GameMap { tile_content: final(self).tile_content, ..*old(self) }),
            final(self).tile_content@.len() == old(self).tile_content@.len(),
            forall|i: int|
                0 <= i < old(self).tile_content@.len() ==> final(self).tile_content@[i]@
                    == Seq::<Entity>::empty(),
    {
        let n = self.tile_content.len();
        let mut i: usize = 0;
        while i < n
            invariant
                self.wf(),
                n == self.tile_content@.len(),
                i <= n,
                *self == (GameMap { tile_content: self.tile_content, ..*old(self) }),
                self.tile_content@.len() == old(self).tile_content@.len(),
                forall|k: int|
                    0 <= k < i ==> self.tile_content@[k]@ == Seq::<Entity>::empty(),
            decreases n - i,
        {
            self.tile_content.set(i, Vec::new());
            i = i + 1;
        }
    }
}


/// The cell lies in the carved interior of room `r` (the top-left edge rows
/// stay wall, matching how rooms are dug).
pub open spec fn room_interior(r: Rect, x: int, y: int) -> bool {
    r.x1 + 1 <= x <= r.x2 && r.y1 + 1 <= y <= r.y2
}

/// The cell lies on the horizontal corridor run at row `y` between columns
/// `x1` and `x2`; the cell at flattened index 0 is never carved.
pub open spec fn on_hseg(x1: int, x2: int, y: int, xx: int, yy: int) -> bool {
    yy == y && vstd::math::min(x1, x2) <= xx <= vstd::math::max(x1, x2) && !(xx == 0 && yy == 0)
}

/// The cell lies on the vertical corridor run at column `x` between rows
/// `y1` and `y2`; the cell at flattened index 0 is never carved.
pub open spec fn on_vseg(y1: int, y2: int, x: int, xx: int, yy: int) -> bool {
    xx == x && vstd::math::min(y1, y2) <= yy <= vstd::math::max(y1, y2) && !(xx == 0 && yy == 0)
}

impl GameMap {
    /// Dig a rectangular room: every interior cell becomes floor, everything
    /// else is untouched.
    pub(crate) fn apply_room_to_map(&mut self, room: &Rect)
        requires
            old(self).wf(),
            0 <= room.x1 <= room.x2 < old(self).width,
            0 <= room.y1 <= room.y2 < old(self).height,
        ensures
            final(self).wf(),
            *final(self) == (GameMap { tiles: final(self).tiles, ..*old(self) }),
            final(self).tiles@.len() == old(self).tiles@.len(),
            forall|xx: int, yy: int|
                old(self).spec_in_bounds(xx, yy)
                    ==> final(self).tiles@[#[trigger] tile_idx(old(self).width as int, xx, yy)]
                    == if room_interior(*room, xx, yy) {
                    TileType::Floor
                } else {
                    old(self).tiles@[tile_idx(old(self).width as int, xx, yy)]
                },
    {
        let ghost wd = old(self).width as int;
        let mut y = room.y1 + 1;
        while y <= room.y2
            invariant
                self.wf(),
                wd == self.width as int,
                room.y1 + 1 <= y <= room.y2 + 1,
                0 <= room.x1 <= room.x2 < self.width,
                0 <= room.y1 <= room.y2 < self.height,
                *self == (GameMap { tiles: self.tiles, ..*old(self) }),
                self.tiles@.len() == old(self).tiles@.len(),
                forall|xx: int, yy: int|
                    old(self).spec_in_bounds(xx, yy)
                        ==> self.tiles@[#[trigger] tile_idx(wd, xx, yy)] == if room_interior(
                        *room,
                        xx,
                        yy,
                    ) && yy < y {
                        TileType::Floor
                    } else {
                        old(self).tiles@[tile_idx(wd, xx, yy)]
                    },
            decreases room.y2 + 1 - y,
        {
            let mut x = room.x1 + 1;
            while x <= room.x2
                invariant
                    self.wf(),
                    wd == self.width as int,
                    room.y1 + 1 <= y <= room.y2,
                    room.x1 + 1 <= x <= room.x2 + 1,
                    0 <= room.x1 <= room.x2 < self.width,
                    0 <= room.y1 <= room.y2 < self.height,
                    *self == (GameMap { tiles: self.tiles, ..*old(self) }),
                    self.tiles@.len() == old(self).tiles@.len(),
                    forall|xx: int, yy: int|
                        old(self).spec_in_bounds(xx, yy)
                            ==> self.tiles@[#[trigger] tile_idx(wd, xx, yy)] == if room_interior(
                            *room,
                            xx,
                            yy,
                        ) && (yy < y || (yy == y && xx < x)) {
                            TileType::Floor
                        } else {
                            old(self).tiles@[tile_idx(wd, xx, yy)]
                        },
                decreases room.x2 + 1 - x,
            {
                self.set_tile(x, y, TileType::Floor);
                x = x + 1;
            }
            y = y + 1;
        }
    }

    /// Dig a horizontal tunnel of floor at row `y` between columns `x1` and
    /// `x2`; carving clips to the valid flattened index range.
    pub(crate) fn apply_horizontal_tunnel(&mut self, x1: i32, x2: i32, y: i32)
        requires
            old(self).wf(),
            0 <= x1 < old(self).width,
            0 <= x2 < old(self).width,
            0 <= y < old(self).height,
        ensures
            final(self).wf(),
            *final(self) == (GameMap { tiles: final(self).tiles, ..*old(self) }),
            final(self).tiles@.len() == old(self).tiles@.len(),
            forall|xx: int, yy: int|
                old(self).spec_in_bounds(xx, yy)
                    ==> final(self).tiles@[#[trigger] tile_idx(old(self).width as int, xx, yy)]
                    == if on_hseg(x1 as int, x2 as int, y as int, xx, yy) {
                    TileType::Floor
                } else {
                    old(self).tiles@[tile_idx(old(self).width as int, xx, yy)]
                },
    {
        let ghost wd = old(self).width as int;
        let lo = if x1 < x2 {
            x1
        } else {
            x2
        };
        let hi = if x1 < x2 {
            x2
        } else {
            x1
        };
        let mut x = lo;
        while x <= hi
            invariant
                self.wf(),
                wd == self.width as int,
                lo <= x <= hi + 1,
                lo == vstd::math::min(x1 as int, x2 as int),
                hi == vstd::math::max(x1 as int, x2 as int),
                0 <= lo,
                hi < self.width,
                0 <= y < self.height,
                *self == (GameMap { tiles: self.tiles, ..*old(self) }),
                self.tiles@.len() == old(self).tiles@.len(),
                forall|xx: int, yy: int|
                    old(self).spec_in_bounds(xx, yy)
                        ==> self.tiles@[#[trigger] tile_idx(wd, xx, yy)] == if on_hseg(
                        x1 as int,
                        x2 as int,
                        y as int,
                        xx,
                        yy,
                    ) && xx < x {
                        TileType::Floor
                    } else {
                        old(self).tiles@[tile_idx(wd, xx, yy)]
                    },
            decreases hi + 1 - x,
        {
            let idx = self.xy_idx(x, y);
            if idx > 0 && idx < self.tiles.len() {
                proof {
                    assert(!(x == 0 && y == 0));
                }
                self.set_tile(x, y, TileType::Floor);
            } else {
                proof {
                    assert(x == 0 && y == 0) by (nonlinear_arith)
                        requires
                            (y as int) * wd + x as int == 0,
                            0 <= x,
                            0 <= y,
                            wd > 0,
                    ;
                }
            }
            x = x + 1;
        }
    }

    /// Dig a vertical tunnel of floor at column `x` between rows `y1` and
    /// `y2`; carving clips to the valid flattened index range.
    pub(crate) fn apply_vertical_tunnel(&mut self, y1: i32, y2: i32, x: i32)
        requires
            old(self).wf(),
            0 <= y1 < old(self).height,
            0 <= y2 < old(self).height,
            0 <= x < old(self).width,
        ensures
            final(self).wf(),
            *final(self) == (GameMap { tiles: final(self).tiles, ..*old(self) }),
            final(self).tiles@.len() == old(self).tiles@.len(),
            forall|xx: int, yy: int|
                old(self).spec_in_bounds(xx, yy)
                    ==> final(self).tiles@[#[trigger] tile_idx(old(self).width as int, xx, yy)]
                    == if on_vseg(y1 as int, y2 as int, x as int, xx, yy) {
                    TileType::Floor
                } else {
                    old(self).tiles@[tile_idx(old(self).width as int, xx, yy)]
                },
    {
        let ghost wd = old(self).width as int;
        let lo = if y1 < y2 {
            y1
        } else {
            y2
        };
        let hi = if y1 < y2 {
            y2
        } else {
            y1
        };
        let mut y = lo;
        while y <= hi
            invariant
                self.wf(),
                wd == self.width as int,
                lo <= y <= hi + 1,
                lo == vstd::math::min(y1 as int, y2 as int),
                hi == vstd::math::max(y1 as int, y2 as int),
                0 <= lo,
                hi < self.height,
                0 <= x < self.width,
                *self == (GameMap { tiles: self.tiles, ..*old(self) }),
                self.tiles@.len() == old(self).tiles@.len(),
                forall|xx: int, yy: int|
                    old(self).spec_in_bounds(xx, yy)
                        ==> self.tiles@[#[trigger] tile_idx(wd, xx, yy)] == if on_vseg(
                        y1 as int,
                        y2 as int,
                        x as int,
                        xx,
                        yy,
                    ) && yy < y {
                        TileType::Floor
                    } else {
                        old(self).tiles@[tile_idx(wd, xx, yy)]
                    },
            decreases hi + 1 - y,
        {
            let idx = self.xy_idx(x, y);
            if idx > 0 && idx < self.tiles.len() {
                proof {
                    assert(!(x == 0 && y == 0));
                }
                self.set_tile(x, y, TileType::Floor);
            } else {
                proof {
                    assert(x == 0 && y == 0) by (nonlinear_arith)
                        requires
                            (y as int) * wd + x as int == 0,
                            0 <= x,
                            0 <= y,
                            wd > 0,
                    ;
                }
            }
            y = y + 1;
        }
    }
}

} // verus!
