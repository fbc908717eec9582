//! Rebuilds the map's blocked and per-tile occupant indices from the
//! current entity positions. Runs once per tick, after all moves.

use vstd::prelude::*;
use vstd::pervasive::VecAdditionalExecFns;

use crate::entity::Entity;
use crate::map::{in_map, tile_idx, GameMap};
use crate::world::World;

verus! {

/// The live entity at index `i` stands on flattened tile `j`.
pub open spec fn entity_on_tile(w: World, m_w: int, m_h: int, i: int, j: int) -> bool {
    &&& w.entities.spec_entity_at(i) is Some
    &&& w.positions@.contains_key(i)
    &&& in_map(m_w, m_h, w.positions@[i].x as int, w.positions@[i].y as int)
    &&& tile_idx(m_w, w.positions@[i].x as int, w.positions@[i].y as int) == j
}

/// The occupants of flattened tile `j` among entity indices below `n`, in
/// index order.
pub open spec fn tile_occupants_upto(w: World, m_w: int, m_h: int, j: int, n: int) -> Seq<Entity>
    decreases n,
{
    if n <= 0 {
        Seq::empty()
    } else if entity_on_tile(w, m_w, m_h, n - 1, j) {
        tile_occupants_upto(w, m_w, m_h, j, n - 1).push(w.entities.spec_entity_at(n - 1)->0)
    } else {
        tile_occupants_upto(w, m_w, m_h, j, n - 1)
    }
}

/// Flattened tile `j` is blocked: a wall, or some blocking entity stands on
/// it.
pub open spec fn tile_blocked(w: World, m: GameMap, j: int) -> bool {
    ||| m.tiles@[j] is Wall
    ||| exists|i: int|
        0 <= i < w.entities.spec_capacity() && #[trigger] entity_on_tile(
            w,
            m.width as int,
            m.height as int,
            i,
            j,
        ) && w.blockers@.contains_key(i)
}

/// The map's indices agree with the world: exactly what one run of the
/// indexer establishes.
pub open spec fn indexed(w: World, m: GameMap) -> bool {
    &&& forall|j: int| 0 <= j < m.blocked@.len() ==> #[trigger] m.blocked@[j] == tile_blocked(w, m, j)
    &&& forall|j: int|
        0 <= j < m.tile_content@.len() ==> #[trigger] m.tile_content@[j]@ == tile_occupants_upto(
            w,
            m.width as int,
            m.height as int,
            j,
            w.entities.spec_capacity() as int,
        )
}

/// Keeps the map's blocked and occupant indices in sync with entity
/// positions.
pub struct MapIndexingSystem;

impl MapIndexingSystem {
    /// Rebuild `blocked` from walls plus blocking entities, and repopulate
    /// `tile_content` with every positioned entity, keyed by tile index.
    ///
    /// The result depends only on the map's tiles and the world's entities,
    /// positions and blockers, so running it twice in a row without moving
    /// anything rebuilds identical indices.
    pub fn run(world: &World, map: &mut GameMap)
        requires
            world.wf(),
            old(map).wf(),
        ensures
            final(map).wf(),
            *final(map) == (GameMap {
                blocked: final(map).blocked,
                tile_content: final(map).tile_content,
                ..*old(map)
            }),
            final(map).blocked@.len() == old(map).blocked@.len(),
            final(map).tile_content@.len() == old(map).tile_content@.len(),
            indexed(*world, *final(map)),
    {
        map.populate_blocked();
        map.clear_content_index();

        let cap = world.entities.capacity();
        let ghost m_w = map.width as int;
        let ghost m_h = map.height as int;
        let mut i: usize = 0;
        while i < cap
            invariant
                world.wf(),
                map.wf(),
                cap == world.entities.spec_capacity(),
                m_w == map.width as int,
                m_h == map.height as int,
                i <= cap,
                *map == (GameMap {
                    blocked: map.blocked,
                    tile_content: map.tile_content,
                    ..*old(map)
                }),
                map.blocked@.len() == old(map).blocked@.len(),
                map.tile_content@.len() == old(map).tile_content@.len(),
                forall|j: int|
                    0 <= j < map.blocked@.len() ==> #[trigger] map.blocked@[j] == (
                    map.tiles@[j] is Wall || exists|k: int|
                        0 <= k < i && #[trigger] entity_on_tile(*world, m_w, m_h, k, j)
                            && world.blockers@.contains_key(k)),
                forall|j: int|
                    0 <= j < map.tile_content@.len() ==> #[trigger] map.tile_content@[j]@
                        == tile_occupants_upto(*world, m_w, m_h, j, i as int),
            decreases cap - i,
        {
            let ghost prev_blocked = map.blocked@;
            let ghost prev_content = map.tile_content@;
            if let Some(e) = world.entities.live_at(i) {
                if let Some(pos) = world.positions.get(i) {
                    let px = pos.x;
                    let py = pos.y;
                    if map.in_bounds(px, py) {
                        let idx = map.xy_idx(px, py);
                        if world.blockers.contains(i) {
                            map.blocked.set(idx, true);
                        }
                        let mut tmp: Vec<Entity> = Vec::new();
                        map.tile_content.set_and_swap(idx, &mut tmp);
                        tmp.push(e);
                        map.tile_content.set_and_swap(idx, &mut tmp);
                        proof {
                            assert(entity_on_tile(*world, m_w, m_h, i as int, idx as int));
                            assert forall|j: int|
                                0 <= j < map.tile_content@.len() implies #[trigger] map.tile_content@[j]@
                                == tile_occupants_upto(*world, m_w, m_h, j, i + 1) by {
                                if j == idx as int {
                                    assert(map.tile_content@[j]@ == prev_content[j]@.push(e));
                                } else {
                                    assert(!entity_on_tile(*world, m_w, m_h, i as int, j));
                                    assert(map.tile_content@[j]@ == prev_content[j]@);
                                }
                            }
                            assert forall|j: int|
                                0 <= j < map.blocked@.len() implies #[trigger] map.blocked@[j] == (
                            map.tiles@[j] is Wall || exists|k: int|
                                0 <= k < i + 1 && #[trigger] entity_on_tile(*world, m_w, m_h, k, j)
                                    && world.blockers@.contains_key(k)) by {
                                if j == idx as int && world.blockers@.contains_key(i as int) {
                                    assert(entity_on_tile(*world, m_w, m_h, i as int, j)
                                        && world.blockers@.contains_key(i as int));
                                } else {
                                    assert(map.blocked@[j] == prev_blocked[j]);
                                    assert forall|k: int|
                                        0 <= k < i + 1 && #[trigger] entity_on_tile(
                                            *world,
                                            m_w,
                                            m_h,
                                            k,
                                            j,
                                        ) && world.blockers@.contains_key(k) implies exists|k2: int|
                                        0 <= k2 < i && #[trigger] entity_on_tile(
                                            *world,
                                            m_w,
                                            m_h,
                                            k2,
                                            j,
                                        ) && world.blockers@.contains_key(k2) by {
                                        assert(k != i || j != idx as int || !world.blockers@.contains_key(
                                            i as int,
                                        ));
                                        if k == i as int {
                                            assert(false);
                                        }
                                    }
                                }
                            }
                        }
                    } else {
                        proof {
                            assert forall|j: int|
                                0 <= j < map.tile_content@.len() implies #[trigger] map.tile_content@[j]@
                                == tile_occupants_upto(*world, m_w, m_h, j, i + 1) by {
                                assert(!entity_on_tile(*world, m_w, m_h, i as int, j));
                            }
                            assert forall|j: int, k: int|
                                0 <= j < map.blocked@.len() && 0 <= k < i + 1 && #[trigger] entity_on_tile(
                                    *world,
                                    m_w,
                                    m_h,
                                    k,
                                    j,
                                ) implies k < i by {
                                if k == i as int {
                                    assert(false);
                                }
                            }
                        }
                    }
                } else {
                    proof {
                        assert forall|j: int|
                            0 <= j < map.tile_content@.len() implies #[trigger] map.tile_content@[j]@
                            == tile_occupants_upto(*world, m_w, m_h, j, i + 1) by {
                            assert(!entity_on_tile(*world, m_w, m_h, i as int, j));
                        }
                        assert forall|j: int, k: int|
                            0 <= j < map.blocked@.len() && 0 <= k < i + 1 && #[trigger] entity_on_tile(
                                *world,
                                m_w,
                                m_h,
                                k,
                                j,
                            ) implies k < i by {
                            if k == i as int {
                                assert(false);
                            }
                        }
                    }
                }
            } else {
                proof {
                    assert forall|j: int|
                        0 <= j < map.tile_content@.len() implies #[trigger] map.tile_content@[j]@
                        == tile_occupants_upto(*world, m_w, m_h, j, i + 1) by {
                        assert(!entity_on_tile(*world, m_w, m_h, i as int, j));
                    }
                    assert forall|j: int, k: int|
                        0 <= j < map.blocked@.len() && 0 <= k < i + 1 && #[trigger] entity_on_tile(
                            *world,
                            m_w,
                            m_h,
                            k,
                            j,
                        ) implies k < i by {
                        if k == i as int {
                            assert(false);
                        }
                    }
                }
            }
            i = i + 1;
        }
    }
}

/// Rebuilding the indices is idempotent: two maps indexed against the same
/// world, with the same tiles and dimensions, have identical `blocked` and
/// `tile_content` contents.
pub proof fn lemma_indexer_idempotent(w: World, m1: GameMap, m2: GameMap)
    requires
        indexed(w, m1),
        indexed(w, m2),
        m1.tiles@ == m2.tiles@,
        m1.width == m2.width,
        m1.height == m2.height,
        m1.blocked@.len() == m2.blocked@.len(),
        m1.tile_content@.len() == m2.tile_content@.len(),
    ensures
        m1.blocked@ =~= m2.blocked@,
        forall|j: int|
            0 <= j < m1.tile_content@.len() ==> #[trigger] m1.tile_content@[j]@
                == m2.tile_content@[j]@,
{
    assert forall|j: int| 0 <= j < m1.blocked@.len() implies m1.blocked@[j] == m2.blocked@[j] by {
        assert(m1.blocked@[j] == tile_blocked(w, m1, j));
        assert(m2.blocked@[j] == tile_blocked(w, m2, j));
        if tile_blocked(w, m1, j) != tile_blocked(w, m2, j) {
            assert(forall|i: int| entity_on_tile(w, m1.width as int, m1.height as int, i, j)
                == entity_on_tile(w, m2.width as int, m2.height as int, i, j));
        }
    }
}

} // verus!
