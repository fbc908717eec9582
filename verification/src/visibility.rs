//! Recomputes stale viewsheds, and mirrors the player's viewshed into the
//! map's revealed and currently-visible flags.

use vstd::prelude::*;

use crate::components::{Position, Viewshed};
use crate::entity::Entity;
use crate::fov::{field_of_view, visible_from};
use crate::map::{in_map, tile_idx, GameMap};
use crate::world::World;

verus! {

/// The viewshed at index `i` is recomputed this pass: the entity is live,
/// positioned, and its viewshed is stale.
pub open spec fn vs_processed(w: World, i: int) -> bool {
    &&& w.entities.spec_entity_at(i) is Some
    &&& w.viewsheds@.contains_key(i)
    &&& w.positions@.contains_key(i)
    &&& w.viewsheds@[i].dirty
}

/// Sight ranges are clamped into the supported window.
pub open spec fn clamp_range(r: int) -> int {
    if r < 0 {
        0
    } else if r > 500 {
        500
    } else {
        r
    }
}

/// Some entry of `vt` names the cell (`xx`, `yy`).
pub open spec fn has_cell(vt: Seq<Position>, xx: int, yy: int) -> bool {
    exists|k: int| 0 <= k < vt.len() && (#[trigger] vt[k]).x == xx && vt[k].y == yy
}

/// What a processed viewshed holds afterwards: fresh, and its visible set
/// is exactly the field of view of the entity's position at its clamped
/// range (an off-map position sees nothing).
pub open spec fn viewshed_fresh(w0: World, w: World, m0: GameMap, i: int) -> bool {
    &&& w.viewsheds@.contains_key(i)
    &&& !w.viewsheds@[i].dirty
    &&& w.viewsheds@[i].range == w0.viewsheds@[i].range
    &&& if in_map(m0.width as int, m0.height as int, w0.positions@[i].x as int, w0.positions@[i].y as int) {
        forall|p: Position|
            #[trigger] w.viewsheds@[i].visible_tiles@.contains(p) <==> visible_from(
                m0.tiles@,
                m0.width as int,
                m0.height as int,
                (w0.positions@[i].x as int, w0.positions@[i].y as int),
                (p.x as int, p.y as int),
                clamp_range(w0.viewsheds@[i].range as int),
            )
    } else {
        w.viewsheds@[i].visible_tiles@ == Seq::<Position>::empty()
    }
}

/// Clear the map's currently-visible flags, then set visible and revealed
/// for exactly the cells of `vt`.
fn apply_player_visibility(map: &mut GameMap, vt: &Vec<Position>)
    requires
        old(map).wf(),
        forall|k: int|
            0 <= k < vt@.len() ==> old(map).spec_in_bounds(
                (#[trigger] vt@[k]).x as int,
                vt@[k].y as int,
            ),
    ensures
        final(map).wf(),
        *final(map) == (GameMap {
            visible_tiles: final(map).visible_tiles,
            revealed_tiles: final(map).revealed_tiles,
            ..*old(map)
        }),
        final(map).visible_tiles@.len() == old(map).visible_tiles@.len(),
        final(map).revealed_tiles@.len() == old(map).revealed_tiles@.len(),
        forall|xx: int, yy: int|
            old(map).spec_in_bounds(xx, yy) ==> final(map).visible_tiles@[#[trigger] tile_idx(
                old(map).width as int,
                xx,
                yy,
            )] == has_cell(vt@, xx, yy),
        forall|xx: int, yy: int|
            old(map).spec_in_bounds(xx, yy) ==> final(map).revealed_tiles@[#[trigger] tile_idx(
                old(map).width as int,
                xx,
                yy,
            )] == (old(map).revealed_tiles@[tile_idx(old(map).width as int, xx, yy)] || has_cell(
                vt@,
                xx,
                yy,
            )),
{
    let ghost wd = map.width as int;
    let ghost hd = map.height as int;
    let n = map.visible_tiles.len();
    let mut j: usize = 0;
    while j < n
        invariant
            map.wf(),
            wd == map.width as int,
            n == map.visible_tiles@.len(),
            j <= n,
            *map == (GameMap { visible_tiles: map.visible_tiles, ..*old(map) }),
            map.visible_tiles@.len() == old(map).visible_tiles@.len(),
            forall|t: int| 0 <= t < j ==> !map.visible_tiles@[t],
        decreases n - j,
    {
        map.visible_tiles.set(j, false);
        j = j + 1;
    }

    proof {
        assert(vt@.subrange(0, 0) =~= Seq::<Position>::empty());
        assert forall|xx: int, yy: int| in_map(wd, hd, xx, yy) implies !map.visible_tiles@[#[trigger] tile_idx(
            wd,
            xx,
            yy,
        )] && !has_cell(vt@.subrange(0, 0), xx, yy) by {
            crate::map::lemma_tile_idx_bounds(wd, hd, xx, yy);
        }
    }
    let mut k: usize = 0;
    while k < vt.len()
        invariant
            map.wf(),
            wd == map.width as int,
            hd == map.height as int,
            k <= vt@.len(),
            forall|k2: int|
                0 <= k2 < vt@.len() ==> old(map).spec_in_bounds(
                    (#[trigger] vt@[k2]).x as int,
                    vt@[k2].y as int,
                ),
            *map == (GameMap {
                visible_tiles: map.visible_tiles,
                revealed_tiles: map.revealed_tiles,
                ..*old(map)
            }),
            map.visible_tiles@.len() == old(map).visible_tiles@.len(),
            map.revealed_tiles@.len() == old(map).revealed_tiles@.len(),
            forall|xx: int, yy: int|
                in_map(wd, hd, xx, yy) ==> map.visible_tiles@[#[trigger] tile_idx(wd, xx, yy)]
                    == has_cell(vt@.subrange(0, k as int), xx, yy),
            forall|xx: int, yy: int|
                in_map(wd, hd, xx, yy) ==> map.revealed_tiles@[#[trigger] tile_idx(wd, xx, yy)]
                    == (old(map).revealed_tiles@[tile_idx(wd, xx, yy)] || has_cell(
                    vt@.subrange(0, k as int),
                    xx,
                    yy,
                )),
        decreases vt@.len() - k,
    {
        let p = vt[k];
        let idx = map.xy_idx(p.x, p.y);
        let ghost vis_pre = map.visible_tiles@;
        let ghost rev_pre = map.revealed_tiles@;
        map.visible_tiles.set(idx, true);
        map.revealed_tiles.set(idx, true);
        proof {
            let pre_s = vt@.subrange(0, k as int);
            let cur_s = vt@.subrange(0, k + 1);
            assert forall|xx: int, yy: int|
                in_map(wd, hd, xx, yy) implies map.visible_tiles@[#[trigger] tile_idx(wd, xx, yy)]
                == has_cell(cur_s, xx, yy) && map.revealed_tiles@[tile_idx(wd, xx, yy)] == (old(
                map,
            ).revealed_tiles@[tile_idx(wd, xx, yy)] || has_cell(cur_s, xx, yy)) by {
                crate::map::lemma_tile_idx_bounds(wd, hd, xx, yy);
                if xx == p.x as int && yy == p.y as int {
                    assert(cur_s[k as int] == p);
                    assert(has_cell(cur_s, xx, yy));
                } else {
                    if tile_idx(wd, xx, yy) == idx as int {
                        crate::map::lemma_tile_idx_injective(
                            wd,
                            hd,
                            xx,
                            yy,
                            p.x as int,
                            p.y as int,
                        );
                    }
                    assert(map.visible_tiles@[tile_idx(wd, xx, yy)] == vis_pre[tile_idx(
                        wd,
                        xx,
                        yy,
                    )]);
                    assert forall|k2: int|
                        0 <= k2 < cur_s.len() && (#[trigger] cur_s[k2]).x == xx && cur_s[k2].y
                            == yy implies k2 < pre_s.len() by {
                        if k2 == k {
                            assert(cur_s[k2] == p);
                        }
                    }
                    assert(has_cell(cur_s, xx, yy) == has_cell(pre_s, xx, yy)) by {
                        if has_cell(pre_s, xx, yy) {
                            let k2 = choose|k2: int|
                                0 <= k2 < pre_s.len() && (#[trigger] pre_s[k2]).x == xx
                                    && pre_s[k2].y == yy;
                            assert(cur_s[k2] == pre_s[k2]);
                        }
                    }
                }
            }
        }
        k = k + 1;
    }
    proof {
        assert(vt@.subrange(0, vt@.len() as int) =~= vt@);
    }
}

/// Recomputes the visible-tile set of every stale viewshed.
pub struct VisibilitySystem;

impl VisibilitySystem {
    /// For every live entity with a position and a stale viewshed: compute
    /// the set of tiles visible from its position within its range and
    /// clear the staleness flag. When that entity is the player, the map's
    /// currently-visible flags are replaced by the fresh viewshed and every
    /// seen tile becomes revealed; other viewsheds leave the map alone.
    pub fn run(world: &mut World, map: &mut GameMap, player_entity: Entity)
        requires
            old(world).wf(),
            old(map).wf(),
        ensures
            final(world).wf(),
            final(map).wf(),
            *final(world) == (World { viewsheds: final(world).viewsheds, ..*old(world) }),
            *final(map) == (GameMap {
                visible_tiles: final(map).visible_tiles,
                revealed_tiles: final(map).revealed_tiles,
                ..*old(map)
            }),
            // stale viewsheds are recomputed, the rest stay put
            forall|i: int|
                0 <= i < old(world).entities.spec_capacity() && vs_processed(*old(world), i)
                    ==> #[trigger] viewshed_fresh(*old(world), *final(world), *old(map), i),
            forall|i: int|
                !(0 <= i < old(world).entities.spec_capacity() && vs_processed(*old(world), i))
                    ==> #[trigger] crate::damage::key_eq(
                    final(world).viewsheds@,
                    old(world).viewsheds@,
                    i,
                ),
            // the map flags follow the player's fresh viewshed
            ({
                let pi = player_entity.index as int;
                if 0 <= pi < old(world).entities.spec_capacity() && vs_processed(*old(world), pi)
                    && old(world).players@.contains_key(pi) && in_map(
                    old(map).width as int,
                    old(map).height as int,
                    old(world).positions@[pi].x as int,
                    old(world).positions@[pi].y as int,
                ) {
                    forall|xx: int, yy: int|
                        in_map(old(map).width as int, old(map).height as int, xx, yy) ==> {
                            &&& final(map).visible_tiles@[#[trigger] tile_idx(
                                old(map).width as int,
                                xx,
                                yy,
                            )] == visible_from(
                                old(map).tiles@,
                                old(map).width as int,
                                old(map).height as int,
                                (
                                    old(world).positions@[pi].x as int,
                                    old(world).positions@[pi].y as int,
                                ),
                                (xx, yy),
                                clamp_range(old(world).viewsheds@[pi].range as int),
                            )
                            &&& final(map).revealed_tiles@[tile_idx(old(map).width as int, xx, yy)]
                                == (old(map).revealed_tiles@[tile_idx(old(map).width as int, xx, yy)]
                                || final(map).visible_tiles@[tile_idx(old(map).width as int, xx, yy)])
                        }
                } else {
                    *final(map) == *old(map)
                }
            }),
    {
        let ghost wd = map.width as int;
        let ghost hd = map.height as int;
        let cap = world.entities.capacity();
        let ghost pi = player_entity.index as int;
        let mut i: usize = 0;
        let ghost m0 = *map;
        while i < cap
            invariant
                world.wf(),
                map.wf(),
                cap == old(world).entities.spec_capacity(),
                i <= cap,
                wd == old(map).width as int,
                hd == old(map).height as int,
                pi == player_entity.index as int,
                m0 == *old(map),
                *world == (World { viewsheds: world.viewsheds, ..*old(world) }),
                *map == (GameMap {
                    visible_tiles: map.visible_tiles,
                    revealed_tiles: map.revealed_tiles,
                    ..*old(map)
                }),
                forall|k: int|
                    0 <= k < i && vs_processed(*old(world), k) ==> #[trigger] viewshed_fresh(
                        *old(world),
                        *world,
                        *old(map),
                        k,
                    ),
                forall|k: int|
                    !(0 <= k < i && vs_processed(*old(world), k)) ==> #[trigger] crate::damage::key_eq(
                        world.viewsheds@,
                        old(world).viewsheds@,
                        k,
                    ),
                ({
                    if 0 <= pi < i && vs_processed(*old(world), pi) && old(
                        world,
                    ).players@.contains_key(pi) && in_map(
                        wd,
                        hd,
                        old(world).positions@[pi].x as int,
                        old(world).positions@[pi].y as int,
                    ) {
                        forall|xx: int, yy: int|
                            in_map(wd, hd, xx, yy) ==> {
                                &&& map.visible_tiles@[#[trigger] tile_idx(wd, xx, yy)]
                                    == visible_from(
                                    old(map).tiles@,
                                    wd,
                                    hd,
                                    (
                                        old(world).positions@[pi].x as int,
                                        old(world).positions@[pi].y as int,
                                    ),
                                    (xx, yy),
                                    clamp_range(old(world).viewsheds@[pi].range as int),
                                )
                                &&& map.revealed_tiles@[tile_idx(wd, xx, yy)] == (old(
                                    map,
                                ).revealed_tiles@[tile_idx(wd, xx, yy)] || map.visible_tiles@[tile_idx(
                                    wd,
                                    xx,
                                    yy,
                                )])
                            }
                    } else {
                        *map == *old(map)
                    }
                }),
            decreases cap - i,
        {
            let ghost w_pre = *world;
            proof {
                assert(crate::damage::key_eq(world.viewsheds@, old(world).viewsheds@, i as int));
            }
            if world.entities.live_at(i).is_some() && world.positions.contains(i) {
                let is_dirty = match world.viewsheds.get(i) {
                    Some(vs) => vs.dirty,
                    None => false,
                };
                if is_dirty {
                    proof {
                        assert(vs_processed(*old(world), i as int));
                    }
                    let (range, pos) = {
                        let r = match world.viewsheds.get(i) {
                            Some(vs) => vs.range,
                            None => 0,
                        };
                        let p = match world.positions.get(i) {
                            Some(p) => *p,
                            None => Position { x: 0, y: 0 },
                        };
                        (r, p)
                    };
                    let clamped = if range < 0 {
                        0
                    } else if range > 500 {
                        500
                    } else {
                        range
                    };
                    let vt: Vec<Position> = if map.in_bounds(pos.x, pos.y) {
                        field_of_view(map, pos.x, pos.y, clamped)
                    } else {
                        Vec::new()
                    };
                    let is_player = world.players.contains(i) && i == player_entity.index
                        as usize;
                    if is_player && map.in_bounds(pos.x, pos.y) {
                        proof {
                            assert forall|k2: int|
                                0 <= k2 < vt@.len() implies map.spec_in_bounds(
                                (#[trigger] vt@[k2]).x as int,
                                vt@[k2].y as int,
                            ) by {
                                assert(vt@.contains(vt@[k2]));
                            }
                        }
                        let ghost m_pre = *map;
                        apply_player_visibility(map, &vt);
                        proof {
                            assert(m_pre == *old(map));
                            assert forall|xx: int, yy: int|
                                in_map(wd, hd, xx, yy) implies map.visible_tiles@[#[trigger] tile_idx(
                                wd,
                                xx,
                                yy,
                            )] == visible_from(
                                old(map).tiles@,
                                wd,
                                hd,
                                (pos.x as int, pos.y as int),
                                (xx, yy),
                                clamped as int,
                            ) by {
                                if has_cell(vt@, xx, yy) {
                                    let k2 = choose|k2: int|
                                        0 <= k2 < vt@.len() && (#[trigger] vt@[k2]).x == xx
                                            && vt@[k2].y == yy;
                                    assert(vt@.contains(vt@[k2]));
                                }
                                if visible_from(
                                    old(map).tiles@,
                                    wd,
                                    hd,
                                    (pos.x as int, pos.y as int),
                                    (xx, yy),
                                    clamped as int,
                                ) {
                                    let p2 = Position { x: xx as i32, y: yy as i32 };
                                    assert(vt@.contains(p2));
                                    let k2 = choose|k2: int|
                                        0 <= k2 < vt@.len() && vt@[k2] == p2;
                                    assert((vt@[k2]).x == xx && vt@[k2].y == yy);
                                    assert(has_cell(vt@, xx, yy));
                                }
                            }
                        }
                    }
                    let mut new_vs = match world.viewsheds.take(i) {
                        Some(vs) => vs,
                        None => Viewshed { visible_tiles: Vec::new(), range: 0, dirty: false },
                    };
                    new_vs.visible_tiles = vt;
                    new_vs.dirty = false;
                    world.viewsheds.insert(i, new_vs);
                    proof {
                        assert(viewshed_fresh(*old(world), *world, *old(map), i as int));
                    }
                }
            }
            proof {
                if !(vs_processed(*old(world), i as int)) {
                    assert(crate::damage::key_eq(world.viewsheds@, w_pre.viewsheds@, i as int));
                }
                assert forall|k: int|
                    0 <= k < i + 1 && vs_processed(*old(world), k) implies #[trigger] viewshed_fresh(
                    *old(world),
                    *world,
                    *old(map),
                    k,
                ) by {
                    if k < i as int {
                        assert(viewshed_fresh(*old(world), w_pre, *old(map), k));
                        assert(crate::damage::key_eq(world.viewsheds@, w_pre.viewsheds@, k));
                    }
                }
                assert forall|k: int|
                    !(0 <= k < i + 1 && vs_processed(*old(world), k)) implies #[trigger] crate::damage::key_eq(
                    world.viewsheds@,
                    old(world).viewsheds@,
                    k,
                ) by {
                    assert(crate::damage::key_eq(w_pre.viewsheds@, old(world).viewsheds@, k));
                    if k != i as int {
                        assert(crate::damage::key_eq(world.viewsheds@, w_pre.viewsheds@, k));
                    }
                }
            }
            i = i + 1;
        }
    }
}

} // verus!
