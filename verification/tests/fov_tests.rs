//! Field of view: symmetry, self-visibility, and wall occlusion.

use dungeon_core::fov::field_of_view;
use dungeon_core::{GameMap, Position, Rng, TileType};

fn sees(map: &GameMap, from: (i32, i32), to: (i32, i32), range: i32) -> bool {
    field_of_view(map, from.0, from.1, range)
        .iter()
        .any(|p| p.x == to.0 && p.y == to.1)
}

#[test]
fn fov_is_symmetric_on_generated_maps() {
    let mut rng = Rng::seeded(21);
    let map = GameMap::new_map_rooms_and_corridors(&mut rng, 1);
    let probes = [
        ((10, 10), (14, 12)),
        ((5, 5), (5, 13)),
        ((40, 20), (33, 25)),
        ((70, 35), (78, 41)),
        ((2, 2), (9, 2)),
    ];
    for (a, b) in probes {
        for range in [4, 8] {
            assert_eq!(
                sees(&map, a, b, range),
                sees(&map, b, a, range),
                "asymmetric between {a:?} and {b:?} at range {range}"
            );
        }
    }
}

#[test]
fn fov_sees_itself_and_respects_range() {
    let mut rng = Rng::seeded(8);
    let map = GameMap::new_map_rooms_and_corridors(&mut rng, 1);
    let (cx, cy) = map.rooms[0].center();
    let vt = field_of_view(&map, cx, cy, 8);
    assert!(vt.iter().any(|p| p.x == cx && p.y == cy), "origin not visible");
    for p in &vt {
        let dx = (p.x - cx) as i64;
        let dy = (p.y - cy) as i64;
        assert!(dx * dx + dy * dy <= 64, "tile {p:?} beyond range");
    }
}

#[test]
fn fov_blocked_by_walls() {
    // An all-wall map except a floor strip with one wall in the middle:
    // tiles past the wall must be hidden.
    let mut rng = Rng::seeded(1);
    let mut map = GameMap::new_map_rooms_and_corridors(&mut rng, 1);
    for t in map.tiles.iter_mut() {
        *t = TileType::Wall;
    }
    for x in 2..12 {
        let idx = map.xy_idx(x, 5);
        map.tiles[idx] = TileType::Floor;
    }
    let wall_idx = map.xy_idx(7, 5);
    map.tiles[wall_idx] = TileType::Wall;

    assert!(sees(&map, (3, 5), (6, 5), 8), "near side visible");
    assert!(sees(&map, (3, 5), (7, 5), 8), "the wall itself visible");
    assert!(!sees(&map, (3, 5), (9, 5), 8), "tile behind wall hidden");
    // And symmetrically from the far side.
    assert!(!sees(&map, (9, 5), (3, 5), 8));
}

#[test]
fn fov_returns_distinct_tiles() {
    let mut rng = Rng::seeded(2);
    let map = GameMap::new_map_rooms_and_corridors(&mut rng, 1);
    let (cx, cy) = map.rooms[0].center();
    let vt = field_of_view(&map, cx, cy, 8);
    let mut seen: Vec<Position> = Vec::new();
    for p in &vt {
        assert!(!seen.contains(p), "duplicate tile {p:?}");
        seen.push(*p);
    }
}
