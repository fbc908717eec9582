//! Map generation: room placement, wall borders, and full floor
//! connectivity.

use dungeon_core::{GameMap, Rng, TileType, MAPHEIGHT, MAPWIDTH};

fn floor_at(map: &GameMap, x: i32, y: i32) -> bool {
    map.tiles[map.xy_idx(x, y)] == TileType::Floor
}

#[test]
fn generated_rooms_do_not_intersect() {
    for seed in [1u64, 7, 42, 1234, 99999] {
        let mut rng = Rng::seeded(seed);
        let map = GameMap::new_map_rooms_and_corridors(&mut rng, 1);
        assert!(!map.rooms.is_empty());
        assert!(map.rooms.len() <= 30);
        for i in 0..map.rooms.len() {
            for j in (i + 1)..map.rooms.len() {
                assert!(
                    !map.rooms[i].intersect(&map.rooms[j]),
                    "rooms {i} and {j} intersect with seed {seed}"
                );
            }
        }
    }
}

#[test]
fn generated_map_borders_stay_wall() {
    let mut rng = Rng::seeded(3);
    let map = GameMap::new_map_rooms_and_corridors(&mut rng, 1);
    for x in 0..map.width {
        assert_eq!(map.tiles[map.xy_idx(x, 0)], TileType::Wall);
        assert_eq!(map.tiles[map.xy_idx(x, map.height - 1)], TileType::Wall);
    }
    for y in 0..map.height {
        assert_eq!(map.tiles[map.xy_idx(0, y)], TileType::Wall);
        assert_eq!(map.tiles[map.xy_idx(map.width - 1, y)], TileType::Wall);
    }
}

#[test]
fn generated_floor_is_fully_connected() {
    for seed in [5u64, 123, 777] {
        let mut rng = Rng::seeded(seed);
        let map = GameMap::new_map_rooms_and_corridors(&mut rng, 1);
        let (cx, cy) = map.rooms[0].center();
        assert!(floor_at(&map, cx, cy));

        // Flood-fill 4-connected floor from the first room's centroid.
        let mut seen = vec![false; MAPWIDTH * MAPHEIGHT];
        let mut stack = vec![(cx, cy)];
        seen[map.xy_idx(cx, cy)] = true;
        while let Some((x, y)) = stack.pop() {
            for (dx, dy) in [(-1i32, 0i32), (1, 0), (0, -1), (0, 1)] {
                let (nx, ny) = (x + dx, y + dy);
                if nx >= 0 && nx < map.width && ny >= 0 && ny < map.height {
                    let idx = map.xy_idx(nx, ny);
                    if !seen[idx] && map.tiles[idx] == TileType::Floor {
                        seen[idx] = true;
                        stack.push((nx, ny));
                    }
                }
            }
        }
        for y in 0..map.height {
            for x in 0..map.width {
                let idx = map.xy_idx(x, y);
                if map.tiles[idx] == TileType::Floor {
                    assert!(seen[idx], "floor at ({x},{y}) unreachable with seed {seed}");
                }
            }
        }
    }
}

#[test]
fn generated_map_depth_and_blank_indices() {
    let mut rng = Rng::seeded(11);
    let map = GameMap::new_map_rooms_and_corridors(&mut rng, 4);
    assert_eq!(map.depth, 4);
    assert_eq!(map.tiles.len(), MAPWIDTH * MAPHEIGHT);
    assert!(map.revealed_tiles.iter().all(|r| !r));
    assert!(map.visible_tiles.iter().all(|v| !v));
    assert!(map.blocked.iter().all(|b| !b));
    assert!(map.tile_content.iter().all(|c| c.is_empty()));
}

#[test]
fn generated_floor_is_only_rooms_and_corridors() {
    // Everything the generator did not carve stays wall: each floor tile
    // lies inside some room's interior or on an L-shaped corridor between
    // two consecutive rooms' centers.
    fn between(v: i32, a: i32, b: i32) -> bool {
        v >= a.min(b) && v <= a.max(b)
    }
    fn on_l(a: (i32, i32), b: (i32, i32), x: i32, y: i32) -> bool {
        let horiz = between(x, a.0, b.0) && (y == a.1 || y == b.1);
        let vert = between(y, a.1, b.1) && (x == a.0 || x == b.0);
        horiz || vert
    }
    for seed in [2u64, 31, 4096] {
        let mut rng = Rng::seeded(seed);
        let map = GameMap::new_map_rooms_and_corridors(&mut rng, 1);
        let centers: Vec<(i32, i32)> = map.rooms.iter().map(|r| r.center()).collect();
        for y in 0..map.height {
            for x in 0..map.width {
                if !floor_at(&map, x, y) {
                    continue;
                }
                let in_room = map
                    .rooms
                    .iter()
                    .any(|r| x > r.x1 && x <= r.x2 && y > r.y1 && y <= r.y2);
                let on_corridor = (1..centers.len())
                    .any(|k| on_l(centers[k - 1], centers[k], x, y));
                assert!(
                    in_room || on_corridor,
                    "stray floor at ({x}, {y}) with seed {seed}"
                );
            }
        }
    }
}
