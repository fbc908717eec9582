//! Random dungeon generation: non-overlapping rooms joined by L-shaped
//! corridors, every carved tile reachable from every other.

use vstd::prelude::*;

use crate::connectivity::{
    cell_floor, floor_connected, lemma_connected_mono, lemma_connected_sym, lemma_connected_trans,
    lemma_hseg_connected, lemma_rect_connected, lemma_vseg_connected,
};
use crate::entity::Entity;
use crate::map::{
    in_map, on_hseg, on_vseg, room_interior, tile_idx, GameMap, TileType, MAPHEIGHT, MAPSIZE,
    MAPWIDTH,
};
use crate::rect::Rect;
use crate::rng::Rng;

verus! {

/// The room fits on a `w` by `h` map with a wall ring left around it, and is
/// at least two tiles across, so that its centroid lies in its interior.
pub open spec fn room_ok(r: Rect, w: int, h: int) -> bool {
    &&& 0 <= r.x1
    &&& r.x1 + 2 <= r.x2
    &&& r.x2 <= w - 2
    &&& 0 <= r.y1
    &&& r.y1 + 2 <= r.y2
    &&& r.y2 <= h - 2
}

/// The centroid of a well-formed room lies strictly inside its carved
/// interior.
pub proof fn lemma_center_in_interior(r: Rect)
    requires
        0 <= r.x1,
        r.x1 + 2 <= r.x2,
        0 <= r.y1,
        r.y1 + 2 <= r.y2,
    ensures
        r.x1 + 1 <= r.spec_center().0 <= r.x2 - 1,
        r.y1 + 1 <= r.spec_center().1 <= r.y2 - 1,
        room_interior(r, r.spec_center().0, r.spec_center().1),
{
}

/// Two floor tiles each connected to a common hub tile reach each other.
pub proof fn lemma_floor_all_connected(
    tiles: Seq<TileType>,
    w: int,
    h: int,
    hub: (int, int),
    a: (int, int),
    b: (int, int),
)
    requires
        forall|c: (int, int)| #[trigger]
            cell_floor(tiles, w, h, c) ==> floor_connected(tiles, w, h, c, hub),
        cell_floor(tiles, w, h, a),
        cell_floor(tiles, w, h, b),
    ensures
        floor_connected(tiles, w, h, a, b),
{
    lemma_connected_sym(tiles, w, h, b, hub);
    lemma_connected_trans(tiles, w, h, a, hub, b);
}

/// Full reachability on generated maps: any floor tile of a map the
/// generator produced is reachable from any other by 4-connected floor
/// walking.
pub proof fn lemma_generated_map_connected(m: GameMap, a: (int, int), b: (int, int))
    requires
        gen_inv(m),
        m.rooms@.len() > 0,
        cell_floor(m.tiles@, 80, 43, a),
        cell_floor(m.tiles@, 80, 43, b),
    ensures
        floor_connected(m.tiles@, 80, 43, a, b),
{
    lemma_floor_all_connected(m.tiles@, 80, 43, m.rooms@[0].spec_center(), a, b);
}

/// A wall-filled tile array of length `n`.
fn filled_walls(n: usize) -> (v: Vec<TileType>)
    ensures
        v@.len() == n,
        forall|i: int| 0 <= i < n ==> v@[i] is Wall,
{
    let mut v: Vec<TileType> = Vec::new();
    while v.len() < n
        invariant
            v@.len() <= n,
            forall|i: int| 0 <= i < v@.len() ==> v@[i] is Wall,
        decreases n - v@.len(),
    {
        v.push(TileType::Wall);
    }
    v
}

/// An all-false flag array of length `n`.
fn filled_flags(n: usize) -> (v: Vec<bool>)
    ensures
        v@.len() == n,
        forall|i: int| 0 <= i < n ==> !v@[i],
{
    let mut v: Vec<bool> = Vec::new();
    while v.len() < n
        invariant
            v@.len() <= n,
            forall|i: int| 0 <= i < v@.len() ==> !v@[i],
        decreases n - v@.len(),
    {
        v.push(false);
    }
    v
}

/// An array of `n` empty per-tile entity lists.
fn empty_contents(n: usize) -> (v: Vec<Vec<Entity>>)
    ensures
        v@.len() == n,
        forall|i: int| 0 <= i < n ==> v@[i]@ == Seq::<Entity>::empty(),
{
    let mut v: Vec<Vec<Entity>> = Vec::new();
    while v.len() < n
        invariant
            v@.len() <= n,
            forall|i: int| 0 <= i < v@.len() ==> v@[i]@ == Seq::<Entity>::empty(),
        decreases n - v@.len(),
    {
        v.push(Vec::new());
    }
    v
}

/// The generator's loop invariant over the map being built: every room fits
/// and is carved, rooms do not overlap, all floor lies inside the wall ring,
/// and all floor is connected to the first room's centroid.
pub open spec fn gen_inv(m: GameMap) -> bool {
    &&& m.wf()
    &&& m.width as int == 80
    &&& m.height as int == 43
    &&& forall|k: int| 0 <= k < m.rooms@.len() ==> room_ok(#[trigger] m.rooms@[k], 80, 43)
    &&& forall|k: int|
        0 <= k < m.rooms@.len() ==> {
            &&& 6 <= (#[trigger] m.rooms@[k]).x2 - m.rooms@[k].x1 <= 9
            &&& 6 <= m.rooms@[k].y2 - m.rooms@[k].y1 <= 9
        }
    &&& forall|i: int, j: int|
        0 <= i < j < m.rooms@.len() ==> !#[trigger] m.rooms@[i].spec_intersect(
            #[trigger] m.rooms@[j],
        )
    &&& forall|k: int, xx: int, yy: int|
        0 <= k < m.rooms@.len() && #[trigger] room_interior(m.rooms@[k], xx, yy) ==> cell_floor(
            m.tiles@,
            80,
            43,
            (xx, yy),
        )
    &&& forall|c: (int, int)| #[trigger]
        cell_floor(m.tiles@, 80, 43, c) ==> 1 <= c.0 <= 78 && 1 <= c.1 <= 41
    &&& forall|i: int| 0 <= i < m.tiles@.len() ==> (#[trigger] m.tiles@[i] is Floor || m.tiles@[i] is Wall)
    &&& m.rooms@.len() == 0 ==> forall|c: (int, int)| !cell_floor(m.tiles@, 80, 43, c)
    &&& m.rooms@.len() > 0 ==> forall|c: (int, int)| #[trigger]
        cell_floor(m.tiles@, 80, 43, c) ==> floor_connected(
            m.tiles@,
            80,
            43,
            c,
            m.rooms@[0].spec_center(),
        )
}

/// The recorded L-corridor `h`, `v` joins centroids `a` and `b`: the
/// horizontal run at one end's height and the vertical run at the other
/// end's column, in either bend order.
pub open spec fn corridor_joins(
    a: (int, int),
    b: (int, int),
    h: (int, int, int),
    v: (int, int, int),
) -> bool {
    ||| (h == (a.0, b.0, a.1) && v == (a.1, b.1, b.0))
    ||| (h == (a.0, b.0, b.1) && v == (a.1, b.1, a.0))
}

/// The cell `c` lies in a room interior or on a recorded corridor run.
pub open spec fn in_carved_region(
    rooms: Seq<Rect>,
    hsegs: Seq<(int, int, int)>,
    vsegs: Seq<(int, int, int)>,
    c: (int, int),
) -> bool {
    ||| exists|k: int| 0 <= k < rooms.len() && room_interior(#[trigger] rooms[k], c.0, c.1)
    ||| exists|k: int|
        0 <= k < hsegs.len() && on_hseg((#[trigger] hsegs[k]).0, hsegs[k].1, hsegs[k].2, c.0, c.1)
    ||| exists|k: int|
        0 <= k < vsegs.len() && on_vseg((#[trigger] vsegs[k]).0, vsegs[k].1, vsegs[k].2, c.0, c.1)
}

/// The tile grid's floor is exactly what carving the listed rooms and
/// corridors laid down — everything else is wall.
pub open spec fn carved_tiles(
    tiles: Seq<TileType>,
    rooms: Seq<Rect>,
    hsegs: Seq<(int, int, int)>,
    vsegs: Seq<(int, int, int)>,
) -> bool {
    &&& hsegs.len() == vsegs.len()
    &&& rooms.len() > 0 ==> hsegs.len() == rooms.len() - 1
    &&& rooms.len() == 0 ==> hsegs.len() == 0
    &&& forall|k: int|
        0 <= k < hsegs.len() ==> corridor_joins(
            rooms[k].spec_center(),
            rooms[k + 1].spec_center(),
            #[trigger] hsegs[k],
            vsegs[k],
        )
    &&& forall|c: (int, int)|
        #[trigger] cell_floor(tiles, 80, 43, c) <==> in_carved_region(rooms, hsegs, vsegs, c)
}

/// The map's floor is exactly what carving laid down: the interiors of its
/// rooms and one recorded L-corridor between each pair of consecutive room
/// centroids — everything else is wall.
pub open spec fn carved_exactly(
    m: GameMap,
    hsegs: Seq<(int, int, int)>,
    vsegs: Seq<(int, int, int)>,
) -> bool {
    carved_tiles(m.tiles@, m.rooms@, hsegs, vsegs)
}

/// Accepting a room extends the carved region by exactly that room's
/// interior and the one L-corridor that joins it to the previous room.
proof fn lemma_carve_extend(
    t0: Seq<TileType>,
    t3: Seq<TileType>,
    rooms: Seq<Rect>,
    hsegs: Seq<(int, int, int)>,
    vsegs: Seq<(int, int, int)>,
    room: Rect,
    pc: (int, int),
    nc: (int, int),
    h: (int, int, int),
    v: (int, int, int),
)
    requires
        carved_tiles(t0, rooms, hsegs, vsegs),
        rooms.len() > 0,
        pc == rooms[rooms.len() - 1].spec_center(),
        nc == room.spec_center(),
        corridor_joins(pc, nc, h, v),
        forall|c: (int, int)|
            #[trigger] cell_floor(t3, 80, 43, c) <==> (cell_floor(t0, 80, 43, c)
                || room_interior(room, c.0, c.1) || on_hseg(h.0, h.1, h.2, c.0, c.1) || on_vseg(
                v.0,
                v.1,
                v.2,
                c.0,
                c.1,
            )),
    ensures
        carved_tiles(t3, rooms.push(room), hsegs.push(h), vsegs.push(v)),
{
    let rooms2 = rooms.push(room);
    let hs2 = hsegs.push(h);
    let vs2 = vsegs.push(v);
    assert forall|k: int| 0 <= k < hs2.len() implies corridor_joins(
        rooms2[k].spec_center(),
        rooms2[k + 1].spec_center(),
        #[trigger] hs2[k],
        vs2[k],
    ) by {
        if k < hsegs.len() {
            assert(corridor_joins(
                rooms[k].spec_center(),
                rooms[k + 1].spec_center(),
                hsegs[k],
                vsegs[k],
            ));
        } else {
            assert(rooms2[k] == rooms[rooms.len() - 1]);
            assert(rooms2[k + 1] == room);
        }
    }
    assert forall|c: (int, int)| #[trigger]
        cell_floor(t3, 80, 43, c) <==> in_carved_region(rooms2, hs2, vs2, c) by {
        if cell_floor(t3, 80, 43, c) {
            if cell_floor(t0, 80, 43, c) {
                assert(in_carved_region(rooms, hsegs, vsegs, c));
                if exists|k: int|
                    0 <= k < rooms.len() && room_interior(#[trigger] rooms[k], c.0, c.1) {
                    let k = choose|k: int|
                        0 <= k < rooms.len() && room_interior(#[trigger] rooms[k], c.0, c.1);
                    assert(rooms2[k] == rooms[k]);
                    assert(room_interior(rooms2[k], c.0, c.1));
                } else if exists|k: int|
                    0 <= k < hsegs.len() && on_hseg(
                        (#[trigger] hsegs[k]).0,
                        hsegs[k].1,
                        hsegs[k].2,
                        c.0,
                        c.1,
                    ) {
                    let k = choose|k: int|
                        0 <= k < hsegs.len() && on_hseg(
                            (#[trigger] hsegs[k]).0,
                            hsegs[k].1,
                            hsegs[k].2,
                            c.0,
                            c.1,
                        );
                    assert(hs2[k] == hsegs[k]);
                    assert(on_hseg(hs2[k].0, hs2[k].1, hs2[k].2, c.0, c.1));
                } else {
                    let k = choose|k: int|
                        0 <= k < vsegs.len() && on_vseg(
                            (#[trigger] vsegs[k]).0,
                            vsegs[k].1,
                            vsegs[k].2,
                            c.0,
                            c.1,
                        );
                    assert(vs2[k] == vsegs[k]);
                    assert(on_vseg(vs2[k].0, vs2[k].1, vs2[k].2, c.0, c.1));
                }
            } else if room_interior(room, c.0, c.1) {
                assert(rooms2[rooms.len() as int] == room);
                assert(room_interior(rooms2[rooms.len() as int], c.0, c.1));
            } else if on_hseg(h.0, h.1, h.2, c.0, c.1) {
                assert(hs2[hsegs.len() as int] == h);
                assert(on_hseg(
                    hs2[hsegs.len() as int].0,
                    hs2[hsegs.len() as int].1,
                    hs2[hsegs.len() as int].2,
                    c.0,
                    c.1,
                ));
            } else {
                assert(vs2[vsegs.len() as int] == v);
                assert(on_vseg(
                    vs2[vsegs.len() as int].0,
                    vs2[vsegs.len() as int].1,
                    vs2[vsegs.len() as int].2,
                    c.0,
                    c.1,
                ));
            }
        }
        if in_carved_region(rooms2, hs2, vs2, c) {
            if exists|k: int|
                0 <= k < rooms2.len() && room_interior(#[trigger] rooms2[k], c.0, c.1) {
                let k = choose|k: int|
                    0 <= k < rooms2.len() && room_interior(#[trigger] rooms2[k], c.0, c.1);
                if k < rooms.len() {
                    assert(rooms[k] == rooms2[k]);
                    assert(room_interior(rooms[k], c.0, c.1));
                    assert(in_carved_region(rooms, hsegs, vsegs, c));
                    assert(cell_floor(t0, 80, 43, c));
                } else {
                    assert(rooms2[k] == room);
                }
            } else if exists|k: int|
                0 <= k < hs2.len() && on_hseg(
                    (#[trigger] hs2[k]).0,
                    hs2[k].1,
                    hs2[k].2,
                    c.0,
                    c.1,
                ) {
                let k = choose|k: int|
                    0 <= k < hs2.len() && on_hseg(
                        (#[trigger] hs2[k]).0,
                        hs2[k].1,
                        hs2[k].2,
                        c.0,
                        c.1,
                    );
                if k < hsegs.len() {
                    assert(hsegs[k] == hs2[k]);
                    assert(on_hseg(hsegs[k].0, hsegs[k].1, hsegs[k].2, c.0, c.1));
                    assert(in_carved_region(rooms, hsegs, vsegs, c));
                    assert(cell_floor(t0, 80, 43, c));
                } else {
                    assert(hs2[k] == h);
                }
            } else {
                let k = choose|k: int|
                    0 <= k < vs2.len() && on_vseg(
                        (#[trigger] vs2[k]).0,
                        vs2[k].1,
                        vs2[k].2,
                        c.0,
                        c.1,
                    );
                if k < vsegs.len() {
                    assert(vsegs[k] == vs2[k]);
                    assert(on_vseg(vsegs[k].0, vsegs[k].1, vsegs[k].2, c.0, c.1));
                    assert(in_carved_region(rooms, hsegs, vsegs, c));
                    assert(cell_floor(t0, 80, 43, c));
                } else {
                    assert(vs2[k] == v);
                }
            }
            assert(cell_floor(t3, 80, 43, c));
        }
    }
}

impl GameMap {
    /// A map of walls only, with blank indices and no rooms.
    fn blank(depth: i32) -> (r: GameMap)
        ensures
            r.wf(),
            r.width as int == 80,
            r.height as int == 43,
            r.depth == depth,
            r.rooms@.len() == 0,
            forall|i: int| 0 <= i < r.tiles@.len() ==> r.tiles@[i] is Wall,
            forall|i: int| 0 <= i < r.revealed_tiles@.len() ==> !r.revealed_tiles@[i],
            forall|i: int| 0 <= i < r.visible_tiles@.len() ==> !r.visible_tiles@[i],
            forall|i: int| 0 <= i < r.blocked@.len() ==> !r.blocked@[i],
            forall|i: int|
                0 <= i < r.tile_content@.len() ==> r.tile_content@[i]@ == Seq::<Entity>::empty(),
    {
        GameMap {
            tiles: filled_walls(MAPSIZE),
            rooms: Vec::new(),
            width: MAPWIDTH as i32,
            height: MAPHEIGHT as i32,
            revealed_tiles: filled_flags(MAPSIZE),
            visible_tiles: filled_flags(MAPSIZE),
            blocked: filled_flags(MAPSIZE),
            tile_content: empty_contents(MAPSIZE),
            depth,
        }
    }

    /// Create a new level: up to 30 random rooms, each tried at a random
    /// size and position, rejected if it would overlap an already-placed
    /// room; accepted rooms are carved as floor and joined to the previous
    /// room's centroid by an L-shaped corridor whose bend order is chosen by
    /// a coin flip.
    ///
    /// The rooms never overlap, all floor stays inside the outer wall ring,
    /// and every floor tile is reachable from the first room's centroid by
    /// 4-connected floor walking.
    pub fn new_map_rooms_and_corridors(rng: &mut Rng, depth: i32) -> (r: GameMap)
        ensures
            r.wf(),
            gen_inv(r),
            r.width as int == 80,
            r.height as int == 43,
            r.depth == depth,
            1 <= r.rooms@.len() <= 30,
            forall|i: int| 0 <= i < r.revealed_tiles@.len() ==> !r.revealed_tiles@[i],
            forall|i: int| 0 <= i < r.visible_tiles@.len() ==> !r.visible_tiles@[i],
            forall|i: int| 0 <= i < r.blocked@.len() ==> !r.blocked@[i],
            forall|i: int|
                0 <= i < r.tile_content@.len() ==> r.tile_content@[i]@ == Seq::<Entity>::empty(),
            exists|hsegs: Seq<(int, int, int)>, vsegs: Seq<(int, int, int)>|
                #[trigger] carved_exactly(r, hsegs, vsegs),
    {
        let mut map = Self::blank(depth);

        let max_rooms: i32 = 30;
        let min_size: i32 = 6;
        let max_size: i32 = 10;

        proof {
            assert forall|c: (int, int)| !cell_floor(map.tiles@, 80, 43, c) by {
                if in_map(80, 43, c.0, c.1) {
                    crate::map::lemma_tile_idx_bounds(80, 43, c.0, c.1);
                }
            }
        }

        let ghost mut hsegs: Seq<(int, int, int)> = Seq::empty();
        let ghost mut vsegs: Seq<(int, int, int)> = Seq::empty();
        proof {
            assert(carved_exactly(map, hsegs, vsegs));
        }
        let mut attempt: i32 = 0;
        while attempt < max_rooms
            invariant
                gen_inv(map),
                carved_exactly(map, hsegs, vsegs),
                map.depth == depth,
                max_rooms == 30,
                min_size == 6,
                max_size == 10,
                0 <= attempt <= 30,
                map.rooms@.len() <= attempt,
                attempt >= 1 ==> map.rooms@.len() >= 1,
                forall|i: int| 0 <= i < map.revealed_tiles@.len() ==> !map.revealed_tiles@[i],
                forall|i: int| 0 <= i < map.visible_tiles@.len() ==> !map.visible_tiles@[i],
                forall|i: int| 0 <= i < map.blocked@.len() ==> !map.blocked@[i],
                forall|i: int|
                    0 <= i < map.tile_content@.len() ==> map.tile_content@[i]@
                        == Seq::<Entity>::empty(),
            decreases 30 - attempt,
        {
            let w = rng.range(min_size, max_size);
            let h = rng.range(min_size, max_size);
            let x = rng.roll_dice(1, MAPWIDTH as i32 - w - 1) - 1;
            let y = rng.roll_dice(1, MAPHEIGHT as i32 - h - 1) - 1;
            let new_room = Rect::new(x, y, w, h);

            let mut ok = true;
            let mut k: usize = 0;
            while k < map.rooms.len()
                invariant
                    0 <= k <= map.rooms@.len(),
                    ok == forall|j: int|
                        0 <= j < k ==> !new_room.spec_intersect(#[trigger] map.rooms@[j]),
                decreases map.rooms@.len() - k,
            {
                let other = map.rooms[k];
                if new_room.intersect(&other) {
                    ok = false;
                }
                k = k + 1;
            }

            if ok {
                let ghost t0 = map.tiles@;
                let ghost rooms0 = map.rooms@;
                let ghost n_before = map.rooms@.len();
                let ghost root = if n_before > 0 {
                    map.rooms@[0].spec_center()
                } else {
                    new_room.spec_center()
                };

                map.apply_room_to_map(&new_room);
                let ghost t1 = map.tiles@;

                proof {
                    lemma_center_in_interior(new_room);
                }

                if map.rooms.len() != 0 {
                    let (new_x, new_y) = new_room.center();
                    let prev = map.rooms[map.rooms.len() - 1];
                    let (prev_x, prev_y) = prev.center();
                    proof {
                        lemma_center_in_interior(prev);
                        assert(room_interior(
                            map.rooms@[n_before - 1],
                            prev_x as int,
                            prev_y as int,
                        ));
                        assert(cell_floor(t0, 80, 43, (prev_x as int, prev_y as int)));
                    }
                    let ghost pc = (prev_x as int, prev_y as int);
                    let ghost nc = (new_x as int, new_y as int);

                    if rng.range(0, 2) == 1 {
                        map.apply_horizontal_tunnel(prev_x, new_x, prev_y);
                        let ghost t2 = map.tiles@;
                        map.apply_vertical_tunnel(prev_y, new_y, new_x);
                        let ghost t3 = map.tiles@;
                        proof {
                            lemma_accept_corridor(
                                t0,
                                t1,
                                t2,
                                t3,
                                new_room,
                                prev,
                                pc,
                                nc,
                                root,
                                map.rooms@,
                                true,
                            );
                            let h = (pc.0, nc.0, pc.1);
                            let v = (pc.1, nc.1, nc.0);
                            assert forall|c: (int, int)| #[trigger]
                                cell_floor(t3, 80, 43, c) <==> (cell_floor(t0, 80, 43, c)
                                || room_interior(new_room, c.0, c.1) || on_hseg(
                                h.0,
                                h.1,
                                h.2,
                                c.0,
                                c.1,
                            ) || on_vseg(v.0, v.1, v.2, c.0, c.1)) by {
                                assert(cell_floor(t3, 80, 43, c) <==> (cell_floor(t0, 80, 43, c)
                                    || room_interior(new_room, c.0, c.1) || on_hseg(
                                    pc.0,
                                    nc.0,
                                    pc.1,
                                    c.0,
                                    c.1,
                                ) || on_vseg(pc.1, nc.1, nc.0, c.0, c.1)));
                            }
                            lemma_carve_extend(
                                t0,
                                t3,
                                rooms0,
                                hsegs,
                                vsegs,
                                new_room,
                                pc,
                                nc,
                                h,
                                v,
                            );
                            hsegs = hsegs.push(h);
                            vsegs = vsegs.push(v);
                        }
                    } else {
                        map.apply_vertical_tunnel(prev_y, new_y, prev_x);
                        let ghost t2 = map.tiles@;
                        map.apply_horizontal_tunnel(prev_x, new_x, new_y);
                        let ghost t3 = map.tiles@;
                        proof {
                            lemma_accept_corridor(
                                t0,
                                t1,
                                t2,
                                t3,
                                new_room,
                                prev,
                                pc,
                                nc,
                                root,
                                map.rooms@,
                                false,
                            );
                            let h = (pc.0, nc.0, nc.1);
                            let v = (pc.1, nc.1, pc.0);
                            assert forall|c: (int, int)| #[trigger]
                                cell_floor(t3, 80, 43, c) <==> (cell_floor(t0, 80, 43, c)
                                || room_interior(new_room, c.0, c.1) || on_hseg(
                                h.0,
                                h.1,
                                h.2,
                                c.0,
                                c.1,
                            ) || on_vseg(v.0, v.1, v.2, c.0, c.1)) by {
                                assert(cell_floor(t3, 80, 43, c) <==> (cell_floor(t0, 80, 43, c)
                                    || room_interior(new_room, c.0, c.1) || on_hseg(
                                    pc.0,
                                    nc.0,
                                    nc.1,
                                    c.0,
                                    c.1,
                                ) || on_vseg(pc.1, nc.1, pc.0, c.0, c.1)));
                            }
                            lemma_carve_extend(
                                t0,
                                t3,
                                rooms0,
                                hsegs,
                                vsegs,
                                new_room,
                                pc,
                                nc,
                                h,
                                v,
                            );
                            hsegs = hsegs.push(h);
                            vsegs = vsegs.push(v);
                        }
                    }
                } else {
                    proof {
                        lemma_accept_first_room(t0, t1, new_room, root);
                        assert forall|c: (int, int)| #[trigger]
                            cell_floor(t1, 80, 43, c) <==> in_carved_region(
                            rooms0.push(new_room),
                            hsegs,
                            vsegs,
                            c,
                        ) by {
                            if cell_floor(t1, 80, 43, c) {
                                assert(room_interior(new_room, c.0, c.1));
                                assert(rooms0.push(new_room)[0] == new_room);
                                assert(room_interior(rooms0.push(new_room)[0], c.0, c.1));
                            }
                            if in_carved_region(rooms0.push(new_room), hsegs, vsegs, c) {
                                if exists|k: int|
                                    0 <= k < rooms0.push(new_room).len() && room_interior(
                                        #[trigger] rooms0.push(new_room)[k],
                                        c.0,
                                        c.1,
                                    ) {
                                    let k = choose|k: int|
                                        0 <= k < rooms0.push(new_room).len() && room_interior(
                                            #[trigger] rooms0.push(new_room)[k],
                                            c.0,
                                            c.1,
                                        );
                                    assert(k == 0);
                                    assert(rooms0.push(new_room)[0] == new_room);
                                    assert(cell_floor(t1, 80, 43, c));
                                }
                            }
                        }
                        assert(carved_tiles(t1, rooms0.push(new_room), hsegs, vsegs));
                    }
                }

                map.rooms.push(new_room);
                proof {
                    assert(map.rooms@ == rooms0.push(new_room));
                    assert(carved_exactly(map, hsegs, vsegs));
                }
            }

            attempt = attempt + 1;
        }
        map
    }
}

/// After carving the very first room into an all-wall map, every floor cell
/// lies in its interior and is connected to its centroid.
proof fn lemma_accept_first_room(t0: Seq<TileType>, t1: Seq<TileType>, room: Rect, root: (int, int))
    requires
        t0.len() == 80 * 43,
        t1.len() == 80 * 43,
        room_ok(room, 80, 43),
        root == room.spec_center(),
        forall|c: (int, int)| !cell_floor(t0, 80, 43, c),
        forall|i: int| 0 <= i < t0.len() ==> (#[trigger] t0[i] is Floor || t0[i] is Wall),
        forall|xx: int, yy: int|
            in_map(80, 43, xx, yy) ==> t1[#[trigger] tile_idx(80, xx, yy)] == if room_interior(
                room,
                xx,
                yy,
            ) {
                TileType::Floor
            } else {
                t0[tile_idx(80, xx, yy)]
            },
    ensures
        forall|xx: int, yy: int| #[trigger]
            room_interior(room, xx, yy) ==> cell_floor(t1, 80, 43, (xx, yy)),
        forall|c: (int, int)| #[trigger] cell_floor(t1, 80, 43, c) ==> 1 <= c.0 <= 78 && 1 <= c.1
            <= 41,
        forall|i: int| 0 <= i < t1.len() ==> (#[trigger] t1[i] is Floor || t1[i] is Wall),
        forall|c: (int, int)| #[trigger]
            cell_floor(t1, 80, 43, c) ==> floor_connected(t1, 80, 43, c, root),
        forall|c: (int, int)| #[trigger]
            cell_floor(t1, 80, 43, c) <==> room_interior(room, c.0, c.1),
{
    lemma_center_in_interior(room);
    assert forall|xx: int, yy: int| #[trigger] room_interior(room, xx, yy) implies cell_floor(
        t1,
        80,
        43,
        (xx, yy),
    ) by {
        assert(in_map(80, 43, xx, yy));
    }
    assert forall|c: (int, int)| #[trigger] cell_floor(t1, 80, 43, c) implies room_interior(
        room,
        c.0,
        c.1,
    ) by {
        assert(t1[tile_idx(80, c.0, c.1)] is Floor);
        if !room_interior(room, c.0, c.1) {
            assert(!cell_floor(t0, 80, 43, c));
        }
    }
    assert forall|i: int| 0 <= i < t1.len() implies (#[trigger] t1[i] is Floor
        || t1[i] is Wall) by {
        let yy = i / 80;
        let xx = i % 80;
        assert(in_map(80, 43, xx, yy) && tile_idx(80, xx, yy) == i) by (nonlinear_arith)
            requires
                0 <= i < 80 * 43,
                yy == i / 80,
                xx == i % 80,
        ;
        assert(t0[i] is Floor || t0[i] is Wall);
    }
    assert forall|c: (int, int)| #[trigger] cell_floor(t1, 80, 43, c) implies floor_connected(
        t1,
        80,
        43,
        c,
        root,
    ) by {
        assert(room_interior(room, c.0, c.1));
        assert forall|u: int, v: int|
            room.x1 + 1 <= u <= room.x2 && room.y1 + 1 <= v <= room.y2 implies #[trigger] cell_floor(
            t1,
            80,
            43,
            (u, v),
        ) by {
            assert(room_interior(room, u, v));
        }
        lemma_rect_connected(
            t1,
            80,
            43,
            room.x1 + 1,
            room.x2 as int,
            room.y1 + 1,
            room.y2 as int,
            c,
            root,
        );
    }
}

/// After carving a later room and its L-corridor, all previously-required
/// facts still hold and the new floor is connected to the root centroid.
#[verifier::rlimit(60)]
proof fn lemma_accept_corridor(
    t0: Seq<TileType>,
    t1: Seq<TileType>,
    t2: Seq<TileType>,
    t3: Seq<TileType>,
    room: Rect,
    prev: Rect,
    pc: (int, int),
    nc: (int, int),
    root: (int, int),
    rooms: Seq<Rect>,
    horizontal_first: bool,
)
    requires
        t0.len() == 80 * 43,
        t1.len() == 80 * 43,
        t2.len() == 80 * 43,
        t3.len() == 80 * 43,
        room_ok(room, 80, 43),
        room_ok(prev, 80, 43),
        pc == prev.spec_center(),
        nc == room.spec_center(),
        rooms.len() > 0,
        root == rooms[0].spec_center(),
        cell_floor(t0, 80, 43, pc),
        // facts of the map before this acceptance
        forall|k: int, xx: int, yy: int|
            0 <= k < rooms.len() && #[trigger] room_interior(rooms[k], xx, yy) ==> cell_floor(
                t0,
                80,
                43,
                (xx, yy),
            ),
        forall|c: (int, int)| #[trigger] cell_floor(t0, 80, 43, c) ==> 1 <= c.0 <= 78 && 1 <= c.1
            <= 41,
        forall|i: int| 0 <= i < t0.len() ==> (#[trigger] t0[i] is Floor || t0[i] is Wall),
        forall|c: (int, int)| #[trigger]
            cell_floor(t0, 80, 43, c) ==> floor_connected(t0, 80, 43, c, root),
        // what the three carves did
        forall|xx: int, yy: int|
            in_map(80, 43, xx, yy) ==> t1[#[trigger] tile_idx(80, xx, yy)] == if room_interior(
                room,
                xx,
                yy,
            ) {
                TileType::Floor
            } else {
                t0[tile_idx(80, xx, yy)]
            },
        horizontal_first ==> forall|xx: int, yy: int|
            in_map(80, 43, xx, yy) ==> t2[#[trigger] tile_idx(80, xx, yy)] == if on_hseg(
                pc.0,
                nc.0,
                pc.1,
                xx,
                yy,
            ) {
                TileType::Floor
            } else {
                t1[tile_idx(80, xx, yy)]
            },
        horizontal_first ==> forall|xx: int, yy: int|
            in_map(80, 43, xx, yy) ==> t3[#[trigger] tile_idx(80, xx, yy)] == if on_vseg(
                pc.1,
                nc.1,
                nc.0,
                xx,
                yy,
            ) {
                TileType::Floor
            } else {
                t2[tile_idx(80, xx, yy)]
            },
        !horizontal_first ==> forall|xx: int, yy: int|
            in_map(80, 43, xx, yy) ==> t2[#[trigger] tile_idx(80, xx, yy)] == if on_vseg(
                pc.1,
                nc.1,
                pc.0,
                xx,
                yy,
            ) {
                TileType::Floor
            } else {
                t1[tile_idx(80, xx, yy)]
            },
        !horizontal_first ==> forall|xx: int, yy: int|
            in_map(80, 43, xx, yy) ==> t3[#[trigger] tile_idx(80, xx, yy)] == if on_hseg(
                pc.0,
                nc.0,
                nc.1,
                xx,
                yy,
            ) {
                TileType::Floor
            } else {
                t2[tile_idx(80, xx, yy)]
            },
    ensures
        forall|k: int, xx: int, yy: int|
            0 <= k < rooms.len() && #[trigger] room_interior(rooms[k], xx, yy) ==> cell_floor(
                t3,
                80,
                43,
                (xx, yy),
            ),
        forall|xx: int, yy: int| #[trigger]
            room_interior(room, xx, yy) ==> cell_floor(t3, 80, 43, (xx, yy)),
        forall|c: (int, int)| #[trigger] cell_floor(t3, 80, 43, c) ==> 1 <= c.0 <= 78 && 1 <= c.1
            <= 41,
        forall|i: int| 0 <= i < t3.len() ==> (#[trigger] t3[i] is Floor || t3[i] is Wall),
        forall|c: (int, int)| #[trigger]
            cell_floor(t3, 80, 43, c) ==> floor_connected(t3, 80, 43, c, root),
        forall|c: (int, int)| #[trigger]
            cell_floor(t3, 80, 43, c) <==> (cell_floor(t0, 80, 43, c) || room_interior(
                room,
                c.0,
                c.1,
            ) || on_hseg(
                pc.0,
                nc.0,
                if horizontal_first {
                    pc.1
                } else {
                    nc.1
                },
                c.0,
                c.1,
            ) || on_vseg(
                pc.1,
                nc.1,
                if horizontal_first {
                    nc.0
                } else {
                    pc.0
                },
                c.0,
                c.1,
            )),
{
    lemma_center_in_interior(room);
    lemma_center_in_interior(prev);

    // Floor is only ever added, cell by cell.
    assert forall|c: (int, int)| cell_floor(t0, 80, 43, c) implies #[trigger] cell_floor(
        t3,
        80,
        43,
        c,
    ) by {
        assert(t1[tile_idx(80, c.0, c.1)] is Floor);
        assert(t2[tile_idx(80, c.0, c.1)] is Floor);
    }
    assert forall|c: (int, int)| cell_floor(t1, 80, 43, c) implies #[trigger] cell_floor(
        t3,
        80,
        43,
        c,
    ) by {
        assert(t2[tile_idx(80, c.0, c.1)] is Floor);
    }

    // The old floor keeps its connection to the root.
    assert forall|c: (int, int)| cell_floor(t0, 80, 43, c) implies floor_connected(
        t3,
        80,
        43,
        c,
        root,
    ) by {
        lemma_connected_mono(t0, t3, 80, 43, c, root);
    }

    // The corridor runs lie strictly inside the wall ring.
    let hx_lo = vstd::math::min(pc.0, nc.0);
    let hx_hi = vstd::math::max(pc.0, nc.0);
    let vy_lo = vstd::math::min(pc.1, nc.1);
    let vy_hi = vstd::math::max(pc.1, nc.1);

    if horizontal_first {
        // Row pc.1 from pc.0 to nc.0, then column nc.0 from pc.1 to nc.1.
        assert forall|u: int| hx_lo <= u <= hx_hi implies #[trigger] cell_floor(
            t3,
            80,
            43,
            (u, pc.1),
        ) by {
            assert(in_map(80, 43, u, pc.1));
            assert(on_hseg(pc.0, nc.0, pc.1, u, pc.1));
            assert(t2[tile_idx(80, u, pc.1)] is Floor);
        }
        assert forall|v: int| vy_lo <= v <= vy_hi implies #[trigger] cell_floor(
            t3,
            80,
            43,
            (nc.0, v),
        ) by {
            assert(in_map(80, 43, nc.0, v));
            assert(on_vseg(pc.1, nc.1, nc.0, nc.0, v));
        }
        // Every cell of the row connects to the previous centroid, hence root.
        lemma_hseg_connected(t3, 80, 43, hx_lo, hx_hi, pc.1, pc.0);
        assert(floor_connected(t3, 80, 43, pc, root)) by {
            lemma_connected_mono(t0, t3, 80, 43, pc, root);
        }
        assert forall|u: int| hx_lo <= u <= hx_hi implies floor_connected(
            t3,
            80,
            43,
            (u, pc.1),
            root,
        ) by {
            lemma_hseg_connected(t3, 80, 43, hx_lo, hx_hi, pc.1, u);
            lemma_connected_sym(t3, 80, 43, pc, (hx_hi, pc.1));
            lemma_connected_trans(t3, 80, 43, (u, pc.1), (hx_hi, pc.1), pc);
            lemma_connected_trans(t3, 80, 43, (u, pc.1), pc, root);
        }
        // Every cell of the column connects through (nc.0, pc.1).
        assert(floor_connected(t3, 80, 43, (nc.0, pc.1), root));
        assert forall|v: int| vy_lo <= v <= vy_hi implies floor_connected(
            t3,
            80,
            43,
            (nc.0, v),
            root,
        ) by {
            lemma_vseg_connected(t3, 80, 43, vy_lo, vy_hi, nc.0, v);
            lemma_vseg_connected(t3, 80, 43, vy_lo, vy_hi, nc.0, pc.1);
            lemma_connected_sym(t3, 80, 43, (nc.0, pc.1), (nc.0, vy_hi));
            lemma_connected_trans(t3, 80, 43, (nc.0, v), (nc.0, vy_hi), (nc.0, pc.1));
            lemma_connected_trans(t3, 80, 43, (nc.0, v), (nc.0, pc.1), root);
        }
        assert(floor_connected(t3, 80, 43, nc, root));
    } else {
        // Column pc.0 from pc.1 to nc.1, then row nc.1 from pc.0 to nc.0.
        assert forall|v: int| vy_lo <= v <= vy_hi implies #[trigger] cell_floor(
            t3,
            80,
            43,
            (pc.0, v),
        ) by {
            assert(in_map(80, 43, pc.0, v));
            assert(on_vseg(pc.1, nc.1, pc.0, pc.0, v));
            assert(t2[tile_idx(80, pc.0, v)] is Floor);
        }
        assert forall|u: int| hx_lo <= u <= hx_hi implies #[trigger] cell_floor(
            t3,
            80,
            43,
            (u, nc.1),
        ) by {
            assert(in_map(80, 43, u, nc.1));
            assert(on_hseg(pc.0, nc.0, nc.1, u, nc.1));
        }
        assert(floor_connected(t3, 80, 43, pc, root)) by {
            lemma_connected_mono(t0, t3, 80, 43, pc, root);
        }
        assert forall|v: int| vy_lo <= v <= vy_hi implies floor_connected(
            t3,
            80,
            43,
            (pc.0, v),
            root,
        ) by {
            lemma_vseg_connected(t3, 80, 43, vy_lo, vy_hi, pc.0, v);
            lemma_vseg_connected(t3, 80, 43, vy_lo, vy_hi, pc.0, pc.1);
            lemma_connected_sym(t3, 80, 43, pc, (pc.0, vy_hi));
            lemma_connected_trans(t3, 80, 43, (pc.0, v), (pc.0, vy_hi), pc);
            lemma_connected_trans(t3, 80, 43, (pc.0, v), pc, root);
        }
        assert(floor_connected(t3, 80, 43, (pc.0, nc.1), root));
        assert forall|u: int| hx_lo <= u <= hx_hi implies floor_connected(
            t3,
            80,
            43,
            (u, nc.1),
            root,
        ) by {
            lemma_hseg_connected(t3, 80, 43, hx_lo, hx_hi, nc.1, u);
            lemma_hseg_connected(t3, 80, 43, hx_lo, hx_hi, nc.1, pc.0);
            lemma_connected_sym(t3, 80, 43, (pc.0, nc.1), (hx_hi, nc.1));
            lemma_connected_trans(t3, 80, 43, (u, nc.1), (hx_hi, nc.1), (pc.0, nc.1));
            lemma_connected_trans(t3, 80, 43, (u, nc.1), (pc.0, nc.1), root);
        }
        assert(floor_connected(t3, 80, 43, nc, root));
    }

    // The new room's interior is carved and connected through its centroid.
    assert forall|xx: int, yy: int| #[trigger] room_interior(room, xx, yy) implies cell_floor(
        t3,
        80,
        43,
        (xx, yy),
    ) by {
        assert(in_map(80, 43, xx, yy));
        assert(cell_floor(t1, 80, 43, (xx, yy)));
    }
    assert forall|xx: int, yy: int| #[trigger] room_interior(room, xx, yy) implies floor_connected(
        t3,
        80,
        43,
        (xx, yy),
        root,
    ) by {
        assert forall|u: int, v: int|
            room.x1 + 1 <= u <= room.x2 && room.y1 + 1 <= v <= room.y2 implies #[trigger] cell_floor(
            t3,
            80,
            43,
            (u, v),
        ) by {
            assert(room_interior(room, u, v));
            assert(cell_floor(t1, 80, 43, (u, v)));
        }
        lemma_rect_connected(
            t3,
            80,
            43,
            room.x1 + 1,
            room.x2 as int,
            room.y1 + 1,
            room.y2 as int,
            (xx, yy),
            nc,
        );
        lemma_connected_trans(t3, 80, 43, (xx, yy), nc, root);
    }

    // Old rooms stay carved.
    assert forall|k: int, xx: int, yy: int|
        0 <= k < rooms.len() && #[trigger] room_interior(rooms[k], xx, yy) implies cell_floor(
        t3,
        80,
        43,
        (xx, yy),
    ) by {
        assert(cell_floor(t0, 80, 43, (xx, yy)));
    }

    // Every floor tile of the final grid is old floor, room interior, or on
    // one of the two corridor runs; each kind is inside the ring and
    // connected to the root.
    assert forall|c: (int, int)| #[trigger] cell_floor(t3, 80, 43, c) implies (1 <= c.0 <= 78 && 1
        <= c.1 <= 41 && floor_connected(t3, 80, 43, c, root)) by {
        let xx = c.0;
        let yy = c.1;
        let hseg_y = if horizontal_first {
            pc.1
        } else {
            nc.1
        };
        let vseg_x = if horizontal_first {
            nc.0
        } else {
            pc.0
        };
        if on_hseg(pc.0, nc.0, hseg_y, xx, yy) || on_vseg(pc.1, nc.1, vseg_x, xx, yy) {
            // a corridor cell: bounds come from the centroids' bounds
        } else if room_interior(room, xx, yy) {
        } else {
            assert(cell_floor(t0, 80, 43, c));
        }
    }

    assert forall|i: int| 0 <= i < t3.len() implies (#[trigger] t3[i] is Floor
        || t3[i] is Wall) by {
        let yy = i / 80;
        let xx = i % 80;
        assert(in_map(80, 43, xx, yy) && tile_idx(80, xx, yy) == i) by (nonlinear_arith)
            requires
                0 <= i < 80 * 43,
                yy == i / 80,
                xx == i % 80,
        ;
        assert(t0[i] is Floor || t0[i] is Wall);
    }
}

} // verus!
