//! Item handling: picking up, dropping, and using items, including
//! area-of-effect targeting and healing, damage, and confusion application.

use vstd::prelude::*;

use crate::arith::clamp_i32;
use crate::components::{
    queued_damage, CombatStats, Confusion, InBackpack, Position, SufferDamage, WantsToDropItem,
    WantsToPickupItem, WantsToUseItem,
};
use crate::entity::Entity;
use crate::fov::visible_from;
use crate::gamelog::GameLog;
use crate::map::{tile_idx, GameMap};
use crate::world::World;

verus! {

/// How many entries of `ts` refer to entity index `v`.
pub open spec fn count_index(ts: Seq<Entity>, v: int) -> nat
    decreases ts.len(),
{
    if ts.len() == 0 {
        0
    } else if ts.last().index as int == v {
        count_index(ts.drop_last(), v) + 1
    } else {
        count_index(ts.drop_last(), v)
    }
}

/// Hit points after one healing application: `hp + heal`, capped at
/// `max_hp`, clamped into `i32`.
pub open spec fn heal_once(hp: int, max_hp: int, heal: int) -> int {
    clamp_i32(vstd::math::min(max_hp, hp + heal))
}

/// Hit points after `c` identical healing applications.
pub open spec fn heal_n(hp: int, max_hp: int, heal: int, c: nat) -> int
    decreases c,
{
    if c == 0 {
        hp
    } else {
        heal_once(heal_n(hp, max_hp, heal, (c - 1) as nat), max_hp, heal)
    }
}

/// Entity `e` is affected when the item `item` is used by the entity at
/// index `user` against `target`:
/// no target coordinate makes the user the sole target; a coordinate
/// without an area of effect targets the occupants of that tile; a
/// coordinate with `AreaOfEffect(radius)` targets the occupants of every
/// blast tile, where the blast is the field of view of the coordinate at
/// that radius, clipped to the map's inner region.
pub open spec fn spec_affected(
    w: World,
    m: GameMap,
    user: int,
    target: Option<Position>,
    item: int,
    e: Entity,
) -> bool {
    match target {
        None => w.entities.spec_entity_at(user) == Some(e),
        Some(p) => {
            if w.aoes@.contains_key(item) {
                &&& 0 <= w.aoes@[item].radius <= 500
                &&& exists|c: (int, int)|
                    {
                        &&& 0 < c.0 < m.width - 1
                        &&& 0 < c.1 < m.height - 1
                        &&& visible_from(
                            m.tiles@,
                            m.width as int,
                            m.height as int,
                            (p.x as int, p.y as int),
                            c,
                            w.aoes@[item].radius as int,
                        )
                        &&& #[trigger] m.tile_content@[tile_idx(m.width as int, c.0, c.1)]@.contains(
                            e,
                        )
                    }
            } else {
                &&& m.spec_in_bounds(p.x as int, p.y as int)
                &&& m.tile_content@[tile_idx(m.width as int, p.x as int, p.y as int)]@.contains(e)
            }
        },
    }
}

/// Whether `v` already lists the entity.
fn vec_has_entity(v: &Vec<Entity>, e: Entity) -> (r: bool)
    ensures
        r == v@.contains(e),
{
    let mut k: usize = 0;
    while k < v.len()
        invariant
            k <= v@.len(),
            forall|k2: int| 0 <= k2 < k ==> v@[k2] != e,
        decreases v@.len() - k,
    {
        if v[k] == e {
            proof {
                assert(v@[k as int] == e);
            }
            return true;
        }
        k = k + 1;
    }
    false
}

/// The entities affected by using `item` at `target`; every affected
/// entity appears exactly once, and nothing else does.
pub fn find_targets(
    world: &World,
    map: &GameMap,
    user: usize,
    target: Option<Position>,
    item: usize,
) -> (r: Vec<Entity>)
    requires
        world.wf(),
        map.wf(),
    ensures
        forall|e: Entity|
            r@.contains(e) <==> spec_affected(
                *world,
                *map,
                user as int,
                target,
                item as int,
                e,
            ),
        forall|j1: int, j2: int| 0 <= j1 < j2 < r@.len() ==> r@[j1] != r@[j2],
{
    let mut out: Vec<Entity> = Vec::new();
    match target {
        None => {
            if let Some(e) = world.entities.live_at(user) {
                out.push(e);
                proof {
                    assert forall|e2: Entity| #[trigger]
                        out@.contains(e2) <==> spec_affected(
                        *world,
                        *map,
                        user as int,
                        target,
                        item as int,
                        e2,
                    ) by {
                        if e2 == e {
                            assert(out@[0] == e2);
                        }
                        if out@.contains(e2) {
                            let j = choose|j: int| 0 <= j < out@.len() && out@[j] == e2;
                            assert(e2 == e);
                        }
                    }
                }
            }
        },
        Some(p) => {
            if let Some(aoe) = world.aoes.get(item) {
                let radius = aoe.radius;
                if map.in_bounds(p.x, p.y) && radius >= 0 && radius <= 500 {
                    let blast = crate::fov::field_of_view(map, p.x, p.y, radius);
                    let ghost wd = map.width as int;
                    let ghost hd = map.height as int;
                    let mut c: usize = 0;
                    while c < blast.len()
                        invariant
                            world.wf(),
                            map.wf(),
                            wd == map.width as int,
                            hd == map.height as int,
                            c <= blast@.len(),
                            world.aoes@.contains_key(item as int),
                            world.aoes@[item as int].radius == radius,
                            0 <= radius <= 500,
                            map.spec_in_bounds(p.x as int, p.y as int),
                            forall|q: Position|
                                #[trigger] blast@.contains(q) <==> visible_from(
                                    map.tiles@,
                                    wd,
                                    hd,
                                    (p.x as int, p.y as int),
                                    (q.x as int, q.y as int),
                                    radius as int,
                                ),
                            forall|e: Entity|
                                #[trigger] out@.contains(e) <==> exists|k: int|
                                    {
                                        &&& 0 <= k < c
                                        &&& 0 < blast@[k].x < map.width - 1
                                        &&& 0 < blast@[k].y < map.height - 1
                                        &&& #[trigger] map.tile_content@[tile_idx(
                                            wd,
                                            blast@[k].x as int,
                                            blast@[k].y as int,
                                        )]@.contains(e)
                                    },
                            forall|j1: int, j2: int|
                                0 <= j1 < j2 < out@.len() ==> out@[j1] != out@[j2],
                        decreases blast@.len() - c,
                    {
                        let cell = blast[c];
                        let ghost out_pre = out@;
                        if cell.x > 0 && cell.x < map.width - 1 && cell.y > 0 && cell.y
                            < map.height - 1 {
                            let idx = map.xy_idx(cell.x, cell.y);
                            let mut k: usize = 0;
                            let n = map.tile_content[idx].len();
                            while k < n
                                invariant
                                    map.wf(),
                                    wd == map.width as int,
                                    idx < map.tile_content@.len(),
                                    n == map.tile_content@[idx as int]@.len(),
                                    k <= n,
                                    forall|e: Entity|
                                        #[trigger] out@.contains(e) <==> (out_pre.contains(e)
                                            || exists|k2: int|
                                            0 <= k2 < k && #[trigger] map.tile_content@[idx as int]@[k2]
                                                == e),
                                    forall|j1: int, j2: int|
                                        0 <= j1 < j2 < out@.len() ==> out@[j1] != out@[j2],
                                decreases n - k,
                            {
                                let e = map.tile_content[idx][k];
                                let ghost before = out@;
                                if !vec_has_entity(&out, e) {
                                    out.push(e);
                                }
                                proof {
                                    assert(out@.contains(e)) by {
                                        if !before.contains(e) {
                                            assert(out@[out@.len() - 1] == e);
                                        } else {
                                            let j = choose|j: int|
                                                0 <= j < before.len() && before[j] == e;
                                            assert(out@[j] == e);
                                        }
                                    }
                                    assert forall|e2: Entity| #[trigger]
                                        out@.contains(e2) <==> (out_pre.contains(e2) || exists|
                                        k2: int,
                                    |
                                        0 <= k2 < k + 1
                                            && #[trigger] map.tile_content@[idx as int]@[k2]
                                            == e2) by {
                                        if out@.contains(e2) {
                                            if e2 == e {
                                                assert(map.tile_content@[idx as int]@[k as int]
                                                    == e2);
                                            } else {
                                                let j = choose|j: int|
                                                    0 <= j < out@.len() && out@[j] == e2;
                                                assert(before[j] == e2);
                                                assert(before.contains(e2));
                                            }
                                        } else {
                                            if before.contains(e2) {
                                                let j = choose|j: int|
                                                    0 <= j < before.len() && before[j] == e2;
                                                assert(out@[j] == e2);
                                            }
                                        }
                                        if out_pre.contains(e2) || exists|k2: int|
                                            0 <= k2 < k + 1
                                                && #[trigger] map.tile_content@[idx as int]@[k2]
                                                == e2 {
                                            if e2 == e {
                                                assert(out@.contains(e2));
                                            } else {
                                                assert(before.contains(e2));
                                                let j = choose|j: int|
                                                    0 <= j < before.len() && before[j] == e2;
                                                assert(out@[j] == e2);
                                            }
                                        }
                                    }
                                }
                                k = k + 1;
                            }
                        }
                        proof {
                            assert forall|e: Entity| #[trigger]
                                out@.contains(e) <==> exists|k: int|
                                {
                                    &&& 0 <= k < c + 1
                                    &&& 0 < blast@[k].x < map.width - 1
                                    &&& 0 < blast@[k].y < map.height - 1
                                    &&& #[trigger] map.tile_content@[tile_idx(
                                        wd,
                                        blast@[k].x as int,
                                        blast@[k].y as int,
                                    )]@.contains(e)
                                } by {
                                if out@.contains(e) && !out_pre.contains(e) {
                                    assert(0 < blast@[c as int].x < map.width - 1 && 0
                                        < blast@[c as int].y < map.height - 1);
                                    let k2 = choose|k2: int|
                                        0 <= k2 < map.tile_content@[tile_idx(
                                            wd,
                                            blast@[c as int].x as int,
                                            blast@[c as int].y as int,
                                        )]@.len() && #[trigger] map.tile_content@[tile_idx(
                                            wd,
                                            blast@[c as int].x as int,
                                            blast@[c as int].y as int,
                                        )]@[k2] == e;
                                    assert(map.tile_content@[tile_idx(
                                        wd,
                                        blast@[c as int].x as int,
                                        blast@[c as int].y as int,
                                    )]@.contains(e));
                                }
                            }
                        }
                        c = c + 1;
                    }
                    proof {
                        assert forall|e: Entity| #[trigger]
                            out@.contains(e) <==> spec_affected(
                            *world,
                            *map,
                            user as int,
                            target,
                            item as int,
                            e,
                        ) by {
                            if out@.contains(e) {
                                let k = choose|k: int|
                                    {
                                        &&& 0 <= k < blast@.len()
                                        &&& 0 < blast@[k].x < map.width - 1
                                        &&& 0 < blast@[k].y < map.height - 1
                                        &&& #[trigger] map.tile_content@[tile_idx(
                                            wd,
                                            blast@[k].x as int,
                                            blast@[k].y as int,
                                        )]@.contains(e)
                                    };
                                let cc = (blast@[k].x as int, blast@[k].y as int);
                                assert(blast@.contains(blast@[k]));
                                assert(visible_from(
                                    map.tiles@,
                                    wd,
                                    hd,
                                    (p.x as int, p.y as int),
                                    cc,
                                    radius as int,
                                ) && map.tile_content@[tile_idx(wd, cc.0, cc.1)]@.contains(e));
                            }
                            if spec_affected(*world, *map, user as int, target, item as int, e) {
                                let cc = choose|cc: (int, int)|
                                    {
                                        &&& 0 < cc.0 < map.width - 1
                                        &&& 0 < cc.1 < map.height - 1
                                        &&& visible_from(
                                            map.tiles@,
                                            wd,
                                            hd,
                                            (p.x as int, p.y as int),
                                            cc,
                                            world.aoes@[item as int].radius as int,
                                        )
                                        &&& #[trigger] map.tile_content@[tile_idx(
                                            wd,
                                            cc.0,
                                            cc.1,
                                        )]@.contains(e)
                                    };
                                let q = Position { x: cc.0 as i32, y: cc.1 as i32 };
                                assert(blast@.contains(q));
                                let k = choose|k: int|
                                    0 <= k < blast@.len() && blast@[k] == q;
                                assert(0 <= k < blast@.len() && 0 < blast@[k].x < map.width - 1
                                    && 0 < blast@[k].y < map.height - 1
                                    && map.tile_content@[tile_idx(
                                    wd,
                                    blast@[k].x as int,
                                    blast@[k].y as int,
                                )]@.contains(e));
                            }
                        }
                    }
                } else {
                    proof {
                        assert forall|e: Entity|
                            !spec_affected(
                                *world,
                                *map,
                                user as int,
                                target,
                                item as int,
                                e,
                            ) by {
                            if spec_affected(*world, *map, user as int, target, item as int, e) {
                                assert(0 <= radius <= 500);
                                let cc = choose|cc: (int, int)|
                                    {
                                        &&& 0 < cc.0 < map.width - 1
                                        &&& 0 < cc.1 < map.height - 1
                                        &&& visible_from(
                                            map.tiles@,
                                            map.width as int,
                                            map.height as int,
                                            (p.x as int, p.y as int),
                                            cc,
                                            world.aoes@[item as int].radius as int,
                                        )
                                        &&& #[trigger] map.tile_content@[tile_idx(
                                            map.width as int,
                                            cc.0,
                                            cc.1,
                                        )]@.contains(e)
                                    };
                                assert(map.spec_in_bounds(p.x as int, p.y as int));
                                assert(false);
                            }
                        }
                    }
                }
            } else {
                if map.in_bounds(p.x, p.y) {
                    let idx = map.xy_idx(p.x, p.y);
                    let n = map.tile_content[idx].len();
                    let mut k: usize = 0;
                    while k < n
                        invariant
                            map.wf(),
                            idx < map.tile_content@.len(),
                            idx == tile_idx(map.width as int, p.x as int, p.y as int),
                            n == map.tile_content@[idx as int]@.len(),
                            k <= n,
                            forall|e: Entity|
                                #[trigger] out@.contains(e) <==> exists|k2: int|
                                    0 <= k2 < k && #[trigger] map.tile_content@[idx as int]@[k2]
                                        == e,
                            forall|j1: int, j2: int|
                                0 <= j1 < j2 < out@.len() ==> out@[j1] != out@[j2],
                        decreases n - k,
                    {
                        let e = map.tile_content[idx][k];
                        let ghost before = out@;
                        if !vec_has_entity(&out, e) {
                            out.push(e);
                        }
                        proof {
                            assert(out@.contains(e)) by {
                                if !before.contains(e) {
                                    assert(out@[out@.len() - 1] == e);
                                } else {
                                    let j = choose|j: int|
                                        0 <= j < before.len() && before[j] == e;
                                    assert(out@[j] == e);
                                }
                            }
                            assert forall|e2: Entity| #[trigger]
                                out@.contains(e2) <==> exists|k2: int|
                                0 <= k2 < k + 1 && #[trigger] map.tile_content@[idx as int]@[k2]
                                    == e2 by {
                                if out@.contains(e2) && e2 != e {
                                    let j = choose|j: int|
                                        0 <= j < out@.len() && out@[j] == e2;
                                    assert(before[j] == e2);
                                    assert(before.contains(e2));
                                }
                                if e2 == e {
                                    assert(out@.contains(e2));
                                    assert(map.tile_content@[idx as int]@[k as int] == e2);
                                } else if exists|k2: int|
                                    0 <= k2 < k + 1 && #[trigger] map.tile_content@[idx as int]@[k2]
                                        == e2 {
                                    assert(before.contains(e2));
                                    let j = choose|j: int|
                                        0 <= j < before.len() && before[j] == e2;
                                    assert(out@[j] == e2);
                                }
                            }
                        }
                        k = k + 1;
                    }
                    proof {
                        assert forall|e2: Entity| #[trigger]
                            out@.contains(e2) <==> spec_affected(
                            *world,
                            *map,
                            user as int,
                            target,
                            item as int,
                            e2,
                        ) by {
                            if out@.contains(e2) {
                                let k2 = choose|k2: int|
                                    0 <= k2 < n && #[trigger] map.tile_content@[idx as int]@[k2]
                                        == e2;
                                assert(map.tile_content@[idx as int]@.contains(e2));
                            }
                            if spec_affected(*world, *map, user as int, target, item as int, e2) {
                                let k2 = choose|k2: int|
                                    0 <= k2 < map.tile_content@[idx as int]@.len()
                                        && map.tile_content@[idx as int]@[k2] == e2;
                                assert(0 <= k2 < n && map.tile_content@[idx as int]@[k2] == e2);
                            }
                        }
                    }
                }
            }
        },
    }
    out
}


/// The pickup intent at index `i` takes effect: the item is live.
pub open spec fn pickup_happens(w: World, i: int) -> bool {
    &&& w.pickup_intents@.contains_key(i)
    &&& w.entities.spec_is_live(w.pickup_intents@[i].item)
}

/// Positions and backpack entries after the pickup intents below `n` are
/// honored in index order: each picked-up item leaves the grid and enters
/// its collector's backpack.
pub open spec fn pickups_upto(w: World, n: int) -> (Map<int, Position>, Map<int, InBackpack>)
    decreases n,
{
    if n <= 0 {
        (w.positions@, w.backpacks@)
    } else {
        let prev = pickups_upto(w, n - 1);
        if pickup_happens(w, n - 1) {
            let it = w.pickup_intents@[n - 1].item.index as int;
            (
                prev.0.remove(it),
                prev.1.insert(it, InBackpack { owner: w.pickup_intents@[n - 1].collected_by }),
            )
        } else {
            prev
        }
    }
}

/// The log line for the player's pickup at slot `i`.
pub open spec fn pickup_msg(w: World, i: int) -> Seq<char> {
    ("You pick up the ")@ + w.names@[w.pickup_intents@[i].item.index as int].name@ + (".")@
}

/// The log lines the pickup pass adds while honoring the intents below
/// `n` in index order: one line per pickup collected by `pe` whose item
/// has a name.
pub open spec fn pickup_msgs_upto(w: World, pe: Entity, n: int) -> Seq<Seq<char>>
    decreases n,
{
    if n <= 0 {
        Seq::empty()
    } else {
        let rest = pickup_msgs_upto(w, pe, n - 1);
        if pickup_happens(w, n - 1) && w.pickup_intents@[n - 1].collected_by == pe
            && w.names@.contains_key(w.pickup_intents@[n - 1].item.index as int) {
            rest.push(pickup_msg(w, n - 1))
        } else {
            rest
        }
    }
}

/// Moves items with pickup intents off the floor into backpacks.
pub struct ItemCollectionSystem;

impl ItemCollectionSystem {
    /// Honor every pickup intent: the item loses its position and gains an
    /// `InBackpack` entry owned by its collector. The player's own pickups
    /// are logged. All pickup intents are consumed.
    pub fn run(world: &mut World, log: &mut GameLog, player_entity: Entity)
        requires
            old(world).wf(),
        ensures
            final(world).wf(),
            *final(world) == (World {
                positions: final(world).positions,
                backpacks: final(world).backpacks,
                pickup_intents: final(world).pickup_intents,
                ..*old(world)
            }),
            final(world).pickup_intents@ == Map::<int, WantsToPickupItem>::empty(),
            final(world).positions@ == pickups_upto(
                *old(world),
                old(world).entities.spec_capacity() as int,
            ).0,
            final(world).backpacks@ == pickups_upto(
                *old(world),
                old(world).entities.spec_capacity() as int,
            ).1,
            final(log).entries@.len() >= old(log).entries@.len(),
            forall|k: int|
                0 <= k < old(log).entries@.len() ==> final(log).entries@[k] == old(
                    log,
                ).entries@[k],
            final(log).entries@.len() == old(log).entries@.len() + pickup_msgs_upto(
                *old(world),
                player_entity,
                old(world).entities.spec_capacity() as int,
            ).len(),
            forall|k: int|
                0 <= k < pickup_msgs_upto(
                    *old(world),
                    player_entity,
                    old(world).entities.spec_capacity() as int,
                ).len() ==> final(log).entries@[old(log).entries@.len() + k]@ == pickup_msgs_upto(
                    *old(world),
                    player_entity,
                    old(world).entities.spec_capacity() as int,
                )[k],
    {
        let cap = world.entities.capacity();
        let mut i: usize = 0;
        while i < cap
            invariant
                world.wf(),
                cap == world.entities.spec_capacity(),
                i <= cap,
                *world == (World {
                    positions: world.positions,
                    backpacks: world.backpacks,
                    ..*old(world)
                }),
                world.positions@ == pickups_upto(*old(world), i as int).0,
                world.backpacks@ == pickups_upto(*old(world), i as int).1,
                forall|k: int|
                    0 <= k < old(log).entries@.len() ==> log.entries@[k] == old(log).entries@[k],
                log.entries@.len() == old(log).entries@.len() + pickup_msgs_upto(
                    *old(world),
                    player_entity,
                    i as int,
                ).len(),
                forall|k: int|
                    0 <= k < pickup_msgs_upto(*old(world), player_entity, i as int).len()
                        ==> log.entries@[old(log).entries@.len() + k]@ == pickup_msgs_upto(
                        *old(world),
                        player_entity,
                        i as int,
                    )[k],
            decreases cap - i,
        {
            let ghost msgs_before = pickup_msgs_upto(*old(world), player_entity, i as int);
            if let Some(intent) = world.pickup_intents.get(i) {
                let item = intent.item;
                let collected_by = intent.collected_by;
                if world.entities.is_live(item) {
                    proof {
                        world.entities.lemma_live_index(item);
                    }
                    world.positions.remove(item.index as usize);
                    world.backpacks.insert(
                        item.index as usize,
                        InBackpack { owner: collected_by },
                    );
                    if collected_by == player_entity {
                        if let Some(n) = world.names.get(item.index as usize) {
                            let msg = crate::text::join3(
                                "You pick up the ",
                                n.name.as_str(),
                                ".",
                            );
                            log.log(msg);
                            proof {
                                assert(log.entries@.last()@ =~= pickup_msg(
                                    *old(world),
                                    i as int,
                                ));
                            }
                        }
                    }
                }
            }
            proof {
                assert(pickup_msgs_upto(*old(world), player_entity, i + 1) == if pickup_happens(
                    *old(world),
                    i as int,
                ) && old(world).pickup_intents@[i as int].collected_by == player_entity && old(
                    world,
                ).names@.contains_key(
                    old(world).pickup_intents@[i as int].item.index as int,
                ) {
                    msgs_before.push(pickup_msg(*old(world), i as int))
                } else {
                    msgs_before
                });
            }
            i = i + 1;
        }
        world.pickup_intents.clear();
    }
}

/// The drop intent at index `i` takes effect, given the positions standing
/// when it is reached: the dropper is live and on the grid, and the item is
/// live.
pub open spec fn drop_happens(w: World, positions: Map<int, Position>, i: int) -> bool {
    &&& w.drop_intents@.contains_key(i)
    &&& w.entities.spec_entity_at(i) is Some
    &&& positions.contains_key(i)
    &&& w.entities.spec_is_live(w.drop_intents@[i].item)
}

/// Positions and backpack entries after the drop intents below `n` are
/// honored in index order: each dropped item appears at its dropper's
/// position and leaves the backpack.
pub open spec fn drops_upto(w: World, n: int) -> (Map<int, Position>, Map<int, InBackpack>)
    decreases n,
{
    if n <= 0 {
        (w.positions@, w.backpacks@)
    } else {
        let prev = drops_upto(w, n - 1);
        if drop_happens(w, prev.0, n - 1) {
            let it = w.drop_intents@[n - 1].item.index as int;
            (prev.0.insert(it, prev.0[n - 1]), prev.1.remove(it))
        } else {
            prev
        }
    }
}

/// The log line for the player's drop at slot `i`.
pub open spec fn drop_msg(w: World, i: int) -> Seq<char> {
    ("You drop the ")@ + w.names@[w.drop_intents@[i].item.index as int].name@ + (".")@
}

/// The log lines the drop pass adds while honoring the intents below `n`
/// in index order: one line per drop taking effect at the player's slot
/// `pidx` whose item has a name.
pub open spec fn drop_msgs_upto(w: World, pidx: int, n: int) -> Seq<Seq<char>>
    decreases n,
{
    if n <= 0 {
        Seq::empty()
    } else {
        let rest = drop_msgs_upto(w, pidx, n - 1);
        if drop_happens(w, drops_upto(w, n - 1).0, n - 1) && n - 1 == pidx
            && w.names@.contains_key(w.drop_intents@[n - 1].item.index as int) {
            rest.push(drop_msg(w, n - 1))
        } else {
            rest
        }
    }
}

/// Moves items with drop intents out of backpacks onto the dropper's tile.
pub struct ItemDropSystem;

impl ItemDropSystem {
    /// Honor every drop intent: the item takes the dropper's current
    /// position and leaves the backpack. The player's own drops are logged.
    /// All drop intents are consumed.
    pub fn run(world: &mut World, log: &mut GameLog, player_entity: Entity)
        requires
            old(world).wf(),
        ensures
            final(world).wf(),
            *final(world) == (World {
                positions: final(world).positions,
                backpacks: final(world).backpacks,
                drop_intents: final(world).drop_intents,
                ..*old(world)
            }),
            final(world).drop_intents@ == Map::<int, WantsToDropItem>::empty(),
            final(world).positions@ == drops_upto(
                *old(world),
                old(world).entities.spec_capacity() as int,
            ).0,
            final(world).backpacks@ == drops_upto(
                *old(world),
                old(world).entities.spec_capacity() as int,
            ).1,
            final(log).entries@.len() >= old(log).entries@.len(),
            forall|k: int|
                0 <= k < old(log).entries@.len() ==> final(log).entries@[k] == old(
                    log,
                ).entries@[k],
            final(log).entries@.len() == old(log).entries@.len() + drop_msgs_upto(
                *old(world),
                player_entity.index as int,
                old(world).entities.spec_capacity() as int,
            ).len(),
            forall|k: int|
                0 <= k < drop_msgs_upto(
                    *old(world),
                    player_entity.index as int,
                    old(world).entities.spec_capacity() as int,
                ).len() ==> final(log).entries@[old(log).entries@.len() + k]@ == drop_msgs_upto(
                    *old(world),
                    player_entity.index as int,
                    old(world).entities.spec_capacity() as int,
                )[k],
    {
        let cap = world.entities.capacity();
        let mut i: usize = 0;
        while i < cap
            invariant
                world.wf(),
                cap == world.entities.spec_capacity(),
                i <= cap,
                *world == (World {
                    positions: world.positions,
                    backpacks: world.backpacks,
                    ..*old(world)
                }),
                world.positions@ == drops_upto(*old(world), i as int).0,
                world.backpacks@ == drops_upto(*old(world), i as int).1,
                forall|k: int|
                    0 <= k < old(log).entries@.len() ==> log.entries@[k] == old(log).entries@[k],
                log.entries@.len() == old(log).entries@.len() + drop_msgs_upto(
                    *old(world),
                    player_entity.index as int,
                    i as int,
                ).len(),
                forall|k: int|
                    0 <= k < drop_msgs_upto(
                        *old(world),
                        player_entity.index as int,
                        i as int,
                    ).len() ==> log.entries@[old(log).entries@.len() + k]@ == drop_msgs_upto(
                        *old(world),
                        player_entity.index as int,
                        i as int,
                    )[k],
            decreases cap - i,
        {
            let ghost msgs_before = drop_msgs_upto(
                *old(world),
                player_entity.index as int,
                i as int,
            );
            let mut acted = false;
            if world.entities.live_at(i).is_some() {
                if let Some(intent) = world.drop_intents.get(i) {
                    let item = intent.item;
                    if world.entities.is_live(item) {
                        if let Some(dropper_pos) = world.positions.get(i) {
                            let pos = *dropper_pos;
                            proof {
                                world.entities.lemma_live_index(item);
                            }
                            world.positions.insert(item.index as usize, pos);
                            world.backpacks.remove(item.index as usize);
                            acted = true;
                            if world.entities.live_at(i).is_some() && i == player_entity.index
                                as usize {
                                if let Some(n) = world.names.get(item.index as usize) {
                                    let msg = crate::text::join3(
                                        "You drop the ",
                                        n.name.as_str(),
                                        ".",
                                    );
                                    log.log(msg);
                                    proof {
                                        assert(log.entries@.last()@ =~= drop_msg(
                                            *old(world),
                                            i as int,
                                        ));
                                    }
                                }
                            }
                        }
                    }
                }
            }
            proof {
                if !acted {
                    assert(!drop_happens(
                        *old(world),
                        drops_upto(*old(world), i as int).0,
                        i as int,
                    ));
                }
                assert(drop_msgs_upto(*old(world), player_entity.index as int, i + 1)
                    == if drop_happens(*old(world), drops_upto(*old(world), i as int).0, i as int)
                    && i as int == player_entity.index as int && old(world).names@.contains_key(
                    old(world).drop_intents@[i as int].item.index as int,
                ) {
                    msgs_before.push(drop_msg(*old(world), i as int))
                } else {
                    msgs_before
                });
            }
            i = i + 1;
        }
        world.drop_intents.clear();
    }
}


/// Whether using `item` against the target list counts as "used": at
/// least one of its effects applied to at least one target. Damage and
/// confusion apply to any target; healing applies only to targets that
/// have combat statistics.
pub open spec fn spec_item_used(w: World, item: int, ts: Seq<Entity>) -> bool {
    ||| w.damagers@.contains_key(item) && ts.len() > 0
    ||| w.healers@.contains_key(item) && exists|k: int|
        0 <= k < ts.len() && w.combat_stats@.contains_key((#[trigger] ts[k]).index as int)
    ||| w.confusions@.contains_key(item) && ts.len() > 0
}

/// Apply `item`'s effects to every entity in `targets`, in order: damage
/// joins each target's accumulator, healing raises hit points toward the
/// maximum immediately, and confusion attaches the item's confusion.
/// Returns whether at least one effect applied to at least one target.
pub fn apply_item_effects(
    world: &mut World,
    log: &mut GameLog,
    player_entity: Entity,
    user: usize,
    item: usize,
    targets: &Vec<Entity>,
) -> (used: bool)
    requires
        old(world).wf(),
        forall|k: int| 0 <= k < targets@.len() ==> (#[trigger] targets@[k]).index < u32::MAX,
    ensures
        final(world).wf(),
        final(log).entries@.len() >= old(log).entries@.len(),
        forall|k: int|
            0 <= k < old(log).entries@.len() ==> final(log).entries@[k] == old(log).entries@[k],
        *final(world) == (World {
            combat_stats: final(world).combat_stats,
            confusions: final(world).confusions,
            damage_queue: final(world).damage_queue,
            ..*old(world)
        }),
        used == spec_item_used(*old(world), item as int, targets@),
        // damage joins every target's accumulator, once per occurrence
        forall|v: int|
            queued_damage(final(world).damage_queue@, v) == queued_damage(
                old(world).damage_queue@,
                v,
            ) + if old(world).damagers@.contains_key(item as int) {
                Seq::new(
                    count_index(targets@, v),
                    |x: int| old(world).damagers@[item as int].damage,
                )
            } else {
                Seq::<i32>::empty()
            },
        // healing raises hit points toward the maximum, once per occurrence
        final(world).combat_stats@.dom() == old(world).combat_stats@.dom(),
        forall|v: int|
            old(world).combat_stats@.contains_key(v) ==> final(world).combat_stats@[v] == (
            CombatStats {
                hp: if old(world).healers@.contains_key(item as int) {
                    heal_n(
                        old(world).combat_stats@[v].hp as int,
                        old(world).combat_stats@[v].max_hp as int,
                        old(world).healers@[item as int].heal_amount as int,
                        count_index(targets@, v),
                    ) as i32
                } else {
                    old(world).combat_stats@[v].hp
                },
                ..old(world).combat_stats@[v]
            }),
        // confusion attaches the item's confusion to every target
        forall|v: int|
            #![trigger count_index(targets@, v)]
            if old(world).confusions@.contains_key(item as int) && count_index(targets@, v) > 0 {
                final(world).confusions@.contains_key(v) && final(world).confusions@[v] == old(
                    world,
                ).confusions@[item as int]
            } else {
                key_eq_conf(final(world).confusions@, old(world).confusions@, v)
            },
{
    let ghost ts = targets@;
    let mut used = false;

    if let Some(damager) = world.damagers.get(item) {
        let dmg = damager.damage;
        let mut k: usize = 0;
        while k < targets.len()
            invariant
                world.wf(),
                k <= ts.len(),
                ts == targets@,
                forall|k2: int| 0 <= k2 < ts.len() ==> (#[trigger] ts[k2]).index < u32::MAX,
                *world == (World { damage_queue: world.damage_queue, ..*old(world) }),
                old(world).damagers@.contains_key(item as int),
                dmg == old(world).damagers@[item as int].damage,
                used == (k > 0),
                log.entries@.len() >= old(log).entries@.len(),
                forall|k2: int|
                    0 <= k2 < old(log).entries@.len() ==> log.entries@[k2] == old(
                        log,
                    ).entries@[k2],
                forall|v: int|
                    queued_damage(world.damage_queue@, v) == queued_damage(
                        old(world).damage_queue@,
                        v,
                    ) + Seq::new(count_index(ts.subrange(0, k as int), v), |x: int| dmg),
            decreases ts.len() - k,
        {
            let t = targets[k];
            let ghost q_pre = world.damage_queue@;
            SufferDamage::new_damage(&mut world.damage_queue, t, dmg);
            used = true;
            if user == player_entity.index as usize {
                if world.names.contains(item) && world.names.contains(t.index as usize) {
                    let item_name: &str = match world.names.get(item) {
                        Some(n) => n.name.as_str(),
                        None => "",
                    };
                    let mob_name: &str = match world.names.get(t.index as usize) {
                        Some(n) => n.name.as_str(),
                        None => "",
                    };
                    let mut msg = crate::text::join3("You use ", item_name, " on ");
                    msg.append(mob_name);
                    msg.append(", inflicting ");
                    let num = crate::text::i32_to_string(dmg);
                    msg.append(num.as_str());
                    msg.append(" hp.");
                    log.log(msg);
                }
            }
            proof {
                assert forall|v: int|
                    queued_damage(world.damage_queue@, v) == queued_damage(
                        old(world).damage_queue@,
                        v,
                    ) + Seq::new(count_index(ts.subrange(0, k + 1), v), |x: int| dmg) by {
                    let pre_s = ts.subrange(0, k as int);
                    let cur_s = ts.subrange(0, k + 1);
                    assert(cur_s.drop_last() =~= pre_s);
                    assert(cur_s.last() == ts[k as int]);
                    let base = queued_damage(old(world).damage_queue@, v);
                    if v == t.index as int {
                        assert(count_index(cur_s, v) == count_index(pre_s, v) + 1);
                        assert(Seq::new(count_index(cur_s, v), |x: int| dmg) =~= Seq::new(
                            count_index(pre_s, v),
                            |x: int| dmg,
                        ).push(dmg));
                        assert((base + Seq::new(count_index(pre_s, v), |x: int| dmg)).push(dmg)
                            =~= base + Seq::new(count_index(pre_s, v), |x: int| dmg).push(dmg));
                        assert(queued_damage(world.damage_queue@, v) == queued_damage(
                            q_pre,
                            v,
                        ).push(dmg));
                    } else {
                        assert(count_index(cur_s, v) == count_index(pre_s, v));
                        assert(Seq::new(count_index(cur_s, v), |x: int| dmg) =~= Seq::new(
                            count_index(pre_s, v),
                            |x: int| dmg,
                        ));
                        assert(queued_damage(world.damage_queue@, v) == queued_damage(q_pre, v));
                    }
                }
            }
            k = k + 1;
        }
        proof {
            assert(ts.subrange(0, ts.len() as int) =~= ts);
            if ts.len() == 0 {
                assert forall|v: int|
                    queued_damage(world.damage_queue@, v) == queued_damage(
                        old(world).damage_queue@,
                        v,
                    ) + Seq::new(count_index(ts, v), |x: int| dmg) by {
                    assert(count_index(ts, v) == 0);
                    assert(Seq::new(0nat, |x: int| dmg) =~= Seq::<i32>::empty());
                    assert(queued_damage(world.damage_queue@, v) + Seq::new(
                        count_index(ts, v),
                        |x: int| dmg,
                    ) =~= queued_damage(world.damage_queue@, v));
                }
            }
        }
    } else {
        proof {
            assert forall|v: int|
                queued_damage(world.damage_queue@, v) == queued_damage(
                    old(world).damage_queue@,
                    v,
                ) + Seq::<i32>::empty() by {
                assert(queued_damage(world.damage_queue@, v) + Seq::<i32>::empty()
                    =~= queued_damage(world.damage_queue@, v));
            }
        }
    }

    let ghost w_after_damage = *world;

    let used_before_heal = used;
    if let Some(healer) = world.healers.get(item) {
        let heal = healer.heal_amount;
        let mut k: usize = 0;
        while k < targets.len()
            invariant
                world.wf(),
                k <= ts.len(),
                ts == targets@,
                forall|k2: int| 0 <= k2 < ts.len() ==> (#[trigger] ts[k2]).index < u32::MAX,
                *world == (World { combat_stats: world.combat_stats, ..w_after_damage }),
                old(world).healers@.contains_key(item as int),
                heal == old(world).healers@[item as int].heal_amount,
                w_after_damage.combat_stats@ == old(world).combat_stats@,
                log.entries@.len() >= old(log).entries@.len(),
                forall|k2: int|
                    0 <= k2 < old(log).entries@.len() ==> log.entries@[k2] == old(
                        log,
                    ).entries@[k2],
                used == (used_before_heal || exists|k2: int|
                    0 <= k2 < k && old(world).combat_stats@.contains_key(
                        (#[trigger] ts[k2]).index as int,
                    )),
                world.combat_stats@.dom() == old(world).combat_stats@.dom(),
                forall|v: int|
                    old(world).combat_stats@.contains_key(v) ==> world.combat_stats@[v] == (
                    CombatStats {
                        hp: heal_n(
                            old(world).combat_stats@[v].hp as int,
                            old(world).combat_stats@[v].max_hp as int,
                            heal as int,
                            count_index(ts.subrange(0, k as int), v),
                        ) as i32,
                        ..old(world).combat_stats@[v]
                    }),
            decreases ts.len() - k,
        {
            let t = targets[k];
            let ti = t.index as usize;
            let ghost stats_pre = world.combat_stats@;
            match world.combat_stats.take(ti) {
                Some(stats) => {
                    let hp64: i64 = stats.hp as i64 + heal as i64;
                    let capped: i64 = if hp64 > stats.max_hp as i64 {
                        stats.max_hp as i64
                    } else {
                        hp64
                    };
                    let new_hp: i32 = if capped < i32::MIN as i64 {
                        i32::MIN
                    } else {
                        capped as i32
                    };
                    world.combat_stats.insert(ti, CombatStats { hp: new_hp, ..stats });
                    used = true;
                    if user == player_entity.index as usize && ti == user {
                        if let Some(n) = world.names.get(item) {
                            let mut msg = crate::text::join3(
                                "You drink the ",
                                n.name.as_str(),
                                ", healing ",
                            );
                            let num = crate::text::i32_to_string(heal);
                            msg.append(num.as_str());
                            msg.append(" hp.");
                            log.log(msg);
                        }
                    }
                    proof {
                        assert(world.combat_stats@.dom() =~= stats_pre.dom());
                        assert(new_hp as int == heal_once(
                            stats.hp as int,
                            stats.max_hp as int,
                            heal as int,
                        ));
                    }
                },
                None => {
                    proof {
                        assert(world.combat_stats@ =~= stats_pre);
                    }
                },
            }
            proof {
                assert forall|v: int|
                    old(world).combat_stats@.contains_key(v) implies world.combat_stats@[v] == (
                CombatStats {
                    hp: heal_n(
                        old(world).combat_stats@[v].hp as int,
                        old(world).combat_stats@[v].max_hp as int,
                        heal as int,
                        count_index(ts.subrange(0, k + 1), v),
                    ) as i32,
                    ..old(world).combat_stats@[v]
                }) by {
                    let pre_s = ts.subrange(0, k as int);
                    let cur_s = ts.subrange(0, k + 1);
                    assert(cur_s.drop_last() =~= pre_s);
                    assert(cur_s.last() == ts[k as int]);
                    if v == t.index as int {
                        if old(world).combat_stats@.contains_key(v) {
                            assert(count_index(cur_s, v) == count_index(pre_s, v) + 1);
                        }
                    } else {
                        assert(count_index(cur_s, v) == count_index(pre_s, v));
                    }
                }
            }
            k = k + 1;
        }
        proof {
            assert(ts.subrange(0, ts.len() as int) =~= ts);
        }
    }

    let ghost w_after_heal = *world;

    let used_before_confusion = used;
    let item_conf = match world.confusions.get(item) {
        Some(c) => Some(*c),
        None => None,
    };
    match item_conf {
        Some(conf) => {
            let mut k: usize = 0;
            while k < targets.len()
                invariant
                    world.wf(),
                    k <= ts.len(),
                    ts == targets@,
                    forall|k2: int| 0 <= k2 < ts.len() ==> (#[trigger] ts[k2]).index < u32::MAX,
                    *world == (World { confusions: world.confusions, ..w_after_heal }),
                    w_after_heal.confusions@ == old(world).confusions@,
                    old(world).confusions@.contains_key(item as int),
                    conf == old(world).confusions@[item as int],
                    used == (used_before_confusion || k > 0),
                    log.entries@.len() >= old(log).entries@.len(),
                    forall|k2: int|
                        0 <= k2 < old(log).entries@.len() ==> log.entries@[k2] == old(
                            log,
                        ).entries@[k2],
                    forall|v: int|
                        #[trigger] count_index(ts.subrange(0, k as int), v) > 0 ==> (
                        world.confusions@.contains_key(v) && world.confusions@[v] == conf),
                    forall|v: int|
                        #[trigger] count_index(ts.subrange(0, k as int), v) == 0 ==> key_eq_conf(
                            world.confusions@,
                            old(world).confusions@,
                            v,
                        ),
                decreases ts.len() - k,
            {
                let t = targets[k];
                let ghost conf_pre = world.confusions@;
                world.confusions.insert(t.index as usize, conf);
                used = true;
                if user == player_entity.index as usize {
                    if world.names.contains(item) && world.names.contains(t.index as usize) {
                        let item_name: &str = match world.names.get(item) {
                            Some(n) => n.name.as_str(),
                            None => "",
                        };
                        let mob_name: &str = match world.names.get(t.index as usize) {
                            Some(n) => n.name.as_str(),
                            None => "",
                        };
                        let mut msg = crate::text::join3("You use ", item_name, " on ");
                        msg.append(mob_name);
                        msg.append(", confusing them.");
                        log.log(msg);
                    }
                }
                proof {
                    assert forall|v: int| #[trigger]
                        count_index(ts.subrange(0, k + 1), v) >= 0 implies (if count_index(
                        ts.subrange(0, k + 1),
                        v,
                    ) > 0 {
                        world.confusions@.contains_key(v) && world.confusions@[v] == conf
                    } else {
                        key_eq_conf(world.confusions@, old(world).confusions@, v)
                    }) by {
                        let pre_s = ts.subrange(0, k as int);
                        let cur_s = ts.subrange(0, k + 1);
                        assert(cur_s.drop_last() =~= pre_s);
                        assert(cur_s.last() == ts[k as int]);
                        let cpre = count_index(ts.subrange(0, k as int), v);
                        if v == t.index as int {
                            assert(count_index(cur_s, v) > 0);
                            assert(world.confusions@.contains_key(v) && world.confusions@[v]
                                == conf);
                        } else {
                            assert(count_index(cur_s, v) == cpre);
                            if cpre > 0 {
                                assert(conf_pre.contains_key(v) && conf_pre[v] == conf);
                                assert(world.confusions@[v] == conf_pre[v]);
                            } else {
                                assert(key_eq_conf(conf_pre, old(world).confusions@, v));
                                assert(world.confusions@.contains_key(v) == conf_pre.contains_key(
                                    v,
                                ));
                                if conf_pre.contains_key(v) {
                                    assert(world.confusions@[v] == conf_pre[v]);
                                }
                            }
                        }
                    }
                }
                k = k + 1;
            }
            proof {
                assert(ts.subrange(0, ts.len() as int) =~= ts);
                assert forall|v: int|
                    (if old(world).confusions@.contains_key(item as int) && count_index(
                        targets@,
                        v,
                    ) > 0 {
                        world.confusions@.contains_key(v) && world.confusions@[v] == old(
                            world,
                        ).confusions@[item as int]
                    } else {
                        key_eq_conf(world.confusions@, old(world).confusions@, v)
                    }) by {
                    let c = count_index(ts.subrange(0, ts.len() as int), v);
                    assert(c == count_index(targets@, v));
                }
            }
        },
        None => {},
    }
    used
}

/// Per-key agreement of two confusion maps.
pub open spec fn key_eq_conf(m1: Map<int, Confusion>, m2: Map<int, Confusion>, v: int) -> bool {
    &&& m1.contains_key(v) == m2.contains_key(v)
    &&& m1.contains_key(v) ==> m1[v] == m2[v]
}



/// Entity index `i` holds a use intent the system processes this tick.
pub open spec fn use_processed(w: World, i: int) -> bool {
    &&& w.entities.spec_entity_at(i) is Some
    &&& w.use_intents@.contains_key(i)
}

/// The stores an intent's effects never touch change only by the possible
/// deletion of the consumed item.
pub open spec fn use_step_frame(w: World, w2: World, it: int, consumed: bool) -> bool {
    &&& w2.positions@ == (if consumed { w.positions@.remove(it) } else { w.positions@ })
    &&& w2.renderables@ == (if consumed { w.renderables@.remove(it) } else { w.renderables@ })
    &&& w2.players@ == (if consumed { w.players@.remove(it) } else { w.players@ })
    &&& w2.monsters@ == (if consumed { w.monsters@.remove(it) } else { w.monsters@ })
    &&& w2.items@ == (if consumed { w.items@.remove(it) } else { w.items@ })
    &&& w2.consumables@ == (if consumed { w.consumables@.remove(it) } else { w.consumables@ })
    &&& w2.healers@ == (if consumed { w.healers@.remove(it) } else { w.healers@ })
    &&& w2.ranged_items@ == (if consumed { w.ranged_items@.remove(it) } else { w.ranged_items@ })
    &&& w2.damagers@ == (if consumed { w.damagers@.remove(it) } else { w.damagers@ })
    &&& w2.aoes@ == (if consumed { w.aoes@.remove(it) } else { w.aoes@ })
    &&& w2.backpacks@ == (if consumed { w.backpacks@.remove(it) } else { w.backpacks@ })
    &&& w2.pickup_intents@ == (if consumed {
        w.pickup_intents@.remove(it)
    } else {
        w.pickup_intents@
    })
    &&& w2.drop_intents@ == (if consumed { w.drop_intents@.remove(it) } else { w.drop_intents@ })
    &&& w2.use_intents@ == (if consumed { w.use_intents@.remove(it) } else { w.use_intents@ })
    &&& w2.names@ == (if consumed { w.names@.remove(it) } else { w.names@ })
    &&& w2.viewsheds@ == (if consumed { w.viewsheds@.remove(it) } else { w.viewsheds@ })
    &&& w2.blockers@ == (if consumed { w.blockers@.remove(it) } else { w.blockers@ })
    &&& w2.melee_intents@ == (if consumed {
        w.melee_intents@.remove(it)
    } else {
        w.melee_intents@
    })
}

/// What processing the use intent at index `i` does, witnessed by the
/// duplicate-free affected-target list `ts`: damage joins every target's
/// accumulator, healing raises hit points toward the maximum, confusion is
/// attached, and the item is deleted exactly when it is a consumable and at
/// least one effect applied.
pub open spec fn use_step_with(w: World, m: GameMap, w2: World, i: int, ts: Seq<Entity>) -> bool {
    let intent = w.use_intents@[i];
    let it = intent.item.index as int;
    let used = spec_item_used(w, it, ts);
    let consumed = used && w.consumables@.contains_key(it) && w.entities.spec_is_live(intent.item);
    &&& forall|e: Entity|
        ts.contains(e) <==> (spec_affected(w, m, i, intent.target, it, e) && e.index < u32::MAX)
    &&& forall|j1: int, j2: int| 0 <= j1 < j2 < ts.len() ==> ts[j1] != ts[j2]
    &&& forall|v: int|
        queued_damage(w2.damage_queue@, v) == (if consumed && v == it {
            Seq::<i32>::empty()
        } else {
            queued_damage(w.damage_queue@, v) + (if w.damagers@.contains_key(it) {
                Seq::new(count_index(ts, v), |x: int| w.damagers@[it].damage)
            } else {
                Seq::<i32>::empty()
            })
        })
    &&& forall|v: int|
        w2.combat_stats@.contains_key(v) == (w.combat_stats@.contains_key(v) && !(consumed && v
            == it))
    &&& forall|v: int|
        w2.combat_stats@.contains_key(v) ==> w2.combat_stats@[v] == (CombatStats {
            hp: (if w.healers@.contains_key(it) {
                heal_n(
                    w.combat_stats@[v].hp as int,
                    w.combat_stats@[v].max_hp as int,
                    w.healers@[it].heal_amount as int,
                    count_index(ts, v),
                ) as i32
            } else {
                w.combat_stats@[v].hp
            }),
            ..w.combat_stats@[v]
        })
    &&& forall|v: int|
        w2.confusions@.contains_key(v) == ((w.confusions@.contains_key(v) || (
        w.confusions@.contains_key(it) && count_index(ts, v) > 0)) && !(consumed && v == it))
    &&& forall|v: int|
        w2.confusions@.contains_key(v) ==> w2.confusions@[v] == (if w.confusions@.contains_key(it)
            && count_index(ts, v) > 0 {
            w.confusions@[it]
        } else {
            w.confusions@[v]
        })
    &&& w2.entities.spec_capacity() == w.entities.spec_capacity()
    &&& forall|e: Entity|
        w2.entities.spec_is_live(e) == (w.entities.spec_is_live(e) && !(consumed && e
            == intent.item))
    &&& use_step_frame(w, w2, it, consumed)
}

/// One tick step of the use-item system at entity index `i`: a held intent
/// is resolved as [`use_step_with`] describes; anything else leaves the
/// world untouched.
pub open spec fn use_step_rel(w: World, m: GameMap, w2: World, i: int) -> bool {
    if use_processed(w, i) {
        exists|ts: Seq<Entity>| use_step_with(w, m, w2, i, ts)
    } else {
        w2 == w
    }
}

/// Resolves use-item intents: targeting, effects, and consumption.
pub struct ItemUseSystem;

impl ItemUseSystem {
    /// For every live entity with a use-item intent, processed in index
    /// order: find the affected targets (see [`spec_affected`]), apply the
    /// item's damage, healing and confusion effects, and delete the item
    /// exactly when it is a consumable and at least one effect applied; the
    /// trace of intermediate worlds witnesses each step (see
    /// [`use_step_rel`]). All use-item intents are consumed.
    pub fn run(world: &mut World, map: &GameMap, log: &mut GameLog, player_entity: Entity)
        requires
            old(world).wf(),
            map.wf(),
        ensures
            final(world).wf(),
            final(log).entries@.len() >= old(log).entries@.len(),
            forall|k: int|
                0 <= k < old(log).entries@.len() ==> final(log).entries@[k] == old(
                    log,
                ).entries@[k],
            final(world).use_intents@ == Map::<int, WantsToUseItem>::empty(),
            final(world).entities.spec_capacity() == old(world).entities.spec_capacity(),
            forall|e: Entity|
                final(world).entities.spec_is_live(e) ==> old(world).entities.spec_is_live(e),
            exists|tr: Seq<World>|
                {
                    &&& tr.len() == old(world).entities.spec_capacity() + 1
                    &&& tr[0] == *old(world)
                    &&& (forall|i: int|
                        0 <= i < old(world).entities.spec_capacity() ==> #[trigger] use_step_rel(
                            tr[i],
                            *map,
                            tr[i + 1],
                            i,
                        ))
                    &&& *final(world) == (World {
                        use_intents: final(world).use_intents,
                        ..tr[old(world).entities.spec_capacity() as int]
                    })
                },
            forall|k: int|
                #[trigger] final(world).melee_intents@.contains_key(k) ==> old(
                    world,
                ).melee_intents@.contains_key(k) && final(world).melee_intents@[k] == old(
                    world,
                ).melee_intents@[k],
            forall|k: int|
                #[trigger] final(world).pickup_intents@.contains_key(k) ==> old(
                    world,
                ).pickup_intents@.contains_key(k) && final(world).pickup_intents@[k] == old(
                    world,
                ).pickup_intents@[k],
            forall|k: int|
                #[trigger] final(world).drop_intents@.contains_key(k) ==> old(
                    world,
                ).drop_intents@.contains_key(k) && final(world).drop_intents@[k] == old(
                    world,
                ).drop_intents@[k],
    {
        let cap = world.entities.capacity();
        let ghost mut tr: Seq<World> = seq![*old(world)];
        let mut i: usize = 0;
        while i < cap
            invariant
                world.wf(),
                map.wf(),
                cap == old(world).entities.spec_capacity(),
                world.entities.spec_capacity() == cap,
                i <= cap,
                tr.len() == i + 1,
                tr[0] == *old(world),
                tr.last() == *world,
                log.entries@.len() >= old(log).entries@.len(),
                forall|k: int|
                    0 <= k < old(log).entries@.len() ==> log.entries@[k] == old(log).entries@[k],
                forall|j: int| 0 <= j < i ==> #[trigger] use_step_rel(tr[j], *map, tr[j + 1], j),
                forall|e: Entity|
                    world.entities.spec_is_live(e) ==> old(world).entities.spec_is_live(e),
                forall|k: int|
                    #[trigger] world.melee_intents@.contains_key(k) ==> old(
                        world,
                    ).melee_intents@.contains_key(k) && world.melee_intents@[k] == old(
                        world,
                    ).melee_intents@[k],
                forall|k: int|
                    #[trigger] world.pickup_intents@.contains_key(k) ==> old(
                        world,
                    ).pickup_intents@.contains_key(k) && world.pickup_intents@[k] == old(
                        world,
                    ).pickup_intents@[k],
                forall|k: int|
                    #[trigger] world.drop_intents@.contains_key(k) ==> old(
                        world,
                    ).drop_intents@.contains_key(k) && world.drop_intents@[k] == old(
                        world,
                    ).drop_intents@[k],
            decreases cap - i,
        {
            let ghost w_pre = *world;
            let mut intent_data: Option<WantsToUseItem> = None;
            if world.entities.live_at(i).is_some() {
                if let Some(intent) = world.use_intents.get(i) {
                    intent_data = Some(*intent);
                }
            }
            if let Some(use_item) = intent_data {
                let item = use_item.item;
                let raw_targets = find_targets(
                    world,
                    map,
                    i,
                    use_item.target,
                    item.index as usize,
                );
                let mut targets: Vec<Entity> = Vec::new();
                let mut k: usize = 0;
                while k < raw_targets.len()
                    invariant
                        k <= raw_targets@.len(),
                        forall|k2: int|
                            0 <= k2 < targets@.len() ==> (#[trigger] targets@[k2]).index
                                < u32::MAX,
                        forall|e: Entity|
                            targets@.contains(e) <==> exists|k2: int|
                                0 <= k2 < k && #[trigger] raw_targets@[k2] == e && e.index
                                    < u32::MAX,
                        forall|j: int|
                            0 <= j < targets@.len() ==> exists|k2: int|
                                0 <= k2 < k && #[trigger] raw_targets@[k2] == #[trigger] targets@[j],
                        forall|j1: int, j2: int|
                            0 <= j1 < j2 < targets@.len() ==> targets@[j1] != targets@[j2],
                        forall|j1: int, j2: int|
                            0 <= j1 < j2 < raw_targets@.len() ==> raw_targets@[j1]
                                != raw_targets@[j2],
                    decreases raw_targets@.len() - k,
                {
                    let t = raw_targets[k];
                    let ghost before = targets@;
                    if t.index < u32::MAX {
                        targets.push(t);
                        proof {
                            assert forall|j1: int, j2: int|
                                0 <= j1 < j2 < targets@.len() implies targets@[j1]
                                != targets@[j2] by {
                                if j2 == targets@.len() - 1 {
                                    let k2 = choose|k2: int|
                                        0 <= k2 < k && #[trigger] raw_targets@[k2]
                                            == targets@[j1];
                                    assert(raw_targets@[k2] != raw_targets@[k as int]);
                                }
                            }
                        }
                    }
                    proof {
                        assert forall|e: Entity|
                            targets@.contains(e) <==> exists|k2: int|
                                0 <= k2 < k + 1 && #[trigger] raw_targets@[k2] == e && e.index
                                    < u32::MAX by {
                            if targets@.contains(e) {
                                if e == t && t.index < u32::MAX {
                                    assert(raw_targets@[k as int] == e);
                                } else {
                                    let j = choose|j: int|
                                        0 <= j < targets@.len() && targets@[j] == e;
                                    assert(before.contains(e));
                                }
                            }
                            if exists|k2: int|
                                0 <= k2 < k + 1 && #[trigger] raw_targets@[k2] == e && e.index
                                    < u32::MAX {
                                if e == t && t.index < u32::MAX {
                                    assert(targets@[targets@.len() - 1] == e);
                                } else {
                                    let k2 = choose|k2: int|
                                        0 <= k2 < k + 1 && #[trigger] raw_targets@[k2] == e
                                            && e.index < u32::MAX;
                                    if k2 == k as int {
                                        assert(e == t);
                                        assert(false);
                                    }
                                    assert(before.contains(e));
                                    let j = choose|j: int|
                                        0 <= j < before.len() && before[j] == e;
                                    assert(targets@[j] == e);
                                }
                            }
                        }
                    }
                    k = k + 1;
                }
                proof {
                    // the filtered list witnesses the step's affected set
                    assert forall|e: Entity|
                        targets@.contains(e) <==> (spec_affected(
                            w_pre,
                            *map,
                            i as int,
                            use_item.target,
                            item.index as int,
                            e,
                        ) && e.index < u32::MAX) by {
                        if targets@.contains(e) {
                            let k2 = choose|k2: int|
                                0 <= k2 < raw_targets@.len() && #[trigger] raw_targets@[k2] == e
                                    && e.index < u32::MAX;
                            assert(raw_targets@.contains(e));
                        }
                        if spec_affected(
                            w_pre,
                            *map,
                            i as int,
                            use_item.target,
                            item.index as int,
                            e,
                        ) && e.index < u32::MAX {
                            assert(raw_targets@.contains(e));
                            let k2 = choose|k2: int|
                                0 <= k2 < raw_targets@.len() && raw_targets@[k2] == e;
                            assert(0 <= k2 < raw_targets@.len() && raw_targets@[k2] == e
                                && e.index < u32::MAX);
                        }
                    }
                }
                let ghost w_mid_pre = *world;
                let used = apply_item_effects(
                    world,
                    log,
                    player_entity,
                    i,
                    item.index as usize,
                    &targets,
                );
                let ghost w_mid = *world;
                let consumed = used && world.consumables.contains(item.index as usize)
                    && world.entities.is_live(item);
                if consumed {
                    world.delete_entity(item);
                }
                proof {
                    let ghost ts = targets@;
                    let ghost it = item.index as int;
                    assert(w_pre.use_intents@[i as int] == use_item);
                    assert(used == spec_item_used(w_pre, it, ts));
                    assert(consumed == (spec_item_used(w_pre, it, ts)
                        && w_pre.consumables@.contains_key(it) && w_pre.entities.spec_is_live(
                        item,
                    )));
                    // damage queue after effects and possible consumption
                    assert forall|v: int|
                        queued_damage(world.damage_queue@, v) == (if consumed && v == it {
                            Seq::<i32>::empty()
                        } else {
                            queued_damage(w_pre.damage_queue@, v) + (
                            if w_pre.damagers@.contains_key(it) {
                                Seq::new(count_index(ts, v), |x: int| w_pre.damagers@[it].damage)
                            } else {
                                Seq::<i32>::empty()
                            })
                        }) by {
                        assert(queued_damage(w_mid.damage_queue@, v) == queued_damage(
                            w_pre.damage_queue@,
                            v,
                        ) + (if w_pre.damagers@.contains_key(it) {
                            Seq::new(count_index(targets@, v), |x: int| w_pre.damagers@[it].damage)
                        } else {
                            Seq::<i32>::empty()
                        }));
                        if consumed {
                            assert(world.damage_queue@ == w_mid.damage_queue@.remove(it));
                        }
                    }
                    // combat statistics after healing and possible consumption
                    assert forall|v: int|
                        world.combat_stats@.contains_key(v) == (w_pre.combat_stats@.contains_key(
                            v,
                        ) && !(consumed && v == it)) by {
                        if consumed {
                            assert(world.combat_stats@ == w_mid.combat_stats@.remove(it));
                        }
                        assert(w_mid.combat_stats@.dom() == w_pre.combat_stats@.dom());
                    }
                    assert forall|v: int|
                        world.combat_stats@.contains_key(v) implies world.combat_stats@[v] == (
                    CombatStats {
                        hp: (if w_pre.healers@.contains_key(it) {
                            heal_n(
                                w_pre.combat_stats@[v].hp as int,
                                w_pre.combat_stats@[v].max_hp as int,
                                w_pre.healers@[it].heal_amount as int,
                                count_index(ts, v),
                            ) as i32
                        } else {
                            w_pre.combat_stats@[v].hp
                        }),
                        ..w_pre.combat_stats@[v]
                    }) by {
                        assert(w_mid.combat_stats@.dom() == w_pre.combat_stats@.dom());
                        assert(w_pre.combat_stats@.contains_key(v));
                        assert(world.combat_stats@[v] == w_mid.combat_stats@[v]);
                    }
                    // confusions after attachment and possible consumption
                    assert forall|v: int|
                        world.confusions@.contains_key(v) == ((w_pre.confusions@.contains_key(v)
                            || (w_pre.confusions@.contains_key(it) && count_index(ts, v) > 0))
                            && !(consumed && v == it)) by {
                        let c = count_index(targets@, v);
                        assert(if w_pre.confusions@.contains_key(it) && count_index(targets@, v)
                            > 0 {
                            w_mid.confusions@.contains_key(v) && w_mid.confusions@[v]
                                == w_pre.confusions@[it]
                        } else {
                            key_eq_conf(w_mid.confusions@, w_pre.confusions@, v)
                        });
                        if consumed {
                            assert(world.confusions@ == w_mid.confusions@.remove(it));
                        }
                    }
                    assert forall|v: int|
                        world.confusions@.contains_key(v) implies world.confusions@[v] == (
                    if w_pre.confusions@.contains_key(it) && count_index(ts, v) > 0 {
                        w_pre.confusions@[it]
                    } else {
                        w_pre.confusions@[v]
                    }) by {
                        let c = count_index(targets@, v);
                        assert(if w_pre.confusions@.contains_key(it) && count_index(targets@, v)
                            > 0 {
                            w_mid.confusions@.contains_key(v) && w_mid.confusions@[v]
                                == w_pre.confusions@[it]
                        } else {
                            key_eq_conf(w_mid.confusions@, w_pre.confusions@, v)
                        });
                        if consumed {
                            assert(world.confusions@ == w_mid.confusions@.remove(it));
                        }
                    }
                    // liveness and the untouched stores
                    assert forall|e: Entity|
                        world.entities.spec_is_live(e) == (w_pre.entities.spec_is_live(e) && !(
                        consumed && e == item)) by {}
                    assert(use_step_frame(w_pre, *world, it, consumed));
                    assert(use_step_with(w_pre, *map, *world, i as int, ts));
                    assert(use_step_rel(w_pre, *map, *world, i as int));
                }
            } else {
                proof {
                    assert(!use_processed(w_pre, i as int));
                    assert(use_step_rel(w_pre, *map, *world, i as int));
                }
            }
            proof {
                tr = tr.push(*world);
            }
            i = i + 1;
        }
        world.use_intents.clear();
        proof {
            assert(tr.len() == cap + 1 && tr[0] == *old(world) && tr.last() == (World {
                use_intents: tr.last().use_intents,
                ..*world
            }));
            assert(*world == (World { use_intents: world.use_intents, ..tr[cap as int] }));
        }
    }
}

} // verus!
