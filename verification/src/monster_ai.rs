//! Monster decision-making: confused actors sit out their turns, adjacent
//! actors attack, actors that can see the player give chase.

use vstd::prelude::*;

use crate::components::{Confusion, Position, Viewshed, WantsToMelee};
use crate::entity::Entity;
use crate::fov::dist2;
use crate::map::GameMap;
use crate::pathfinding::{a_star_search, cell_of, king_adj};
use crate::runstate::RunState;
use crate::world::World;

verus! {

/// Index `i` holds a monster the AI evaluates this turn.
pub open spec fn monster_acts(w: World, i: int) -> bool {
    &&& w.entities.spec_entity_at(i) is Some
    &&& w.monsters@.contains_key(i)
    &&& w.viewsheds@.contains_key(i)
    &&& w.positions@.contains_key(i)
}

/// The monster stands within melee reach of the player: strictly closer
/// than one and a half tiles.
pub open spec fn in_melee_reach(p: Position, player: Position) -> bool {
    dist2((p.x as int, p.y as int), (player.x as int, player.y as int)) <= 2
}


/// Confusion handling below index `upto`: each acting, confused monster
/// spent one confusion turn and did nothing else; every other confusion
/// entry is untouched.
pub open spec fn ai_confusion_ok(w0: World, w: World, upto: int, cap: int) -> bool {
    forall|k: int|
        #![trigger monster_acts(w0, k)]
        #![trigger w0.confusions@.contains_key(k)]
        0 <= k < cap ==> {
            if k < upto && monster_acts(w0, k) && w0.confusions@.contains_key(k) {
                &&& (w0.confusions@[k].turns - 1 < 1 ==> !w.confusions@.contains_key(k))
                &&& (w0.confusions@[k].turns - 1 >= 1 ==> w.confusions@.contains_key(k)
                    && w.confusions@[k] == (Confusion {
                    turns: (w0.confusions@[k].turns - 1) as i32,
                }))
                &&& w.positions@[k] == w0.positions@[k]
                &&& w.melee_intents@.contains_key(k) == w0.melee_intents@.contains_key(k)
            } else {
                w.confusions@.contains_key(k) == w0.confusions@.contains_key(k) && (
                w0.confusions@.contains_key(k) ==> w.confusions@[k] == w0.confusions@[k])
            }
        }
}

/// Attacks below index `upto`: each acting, unconfused monster within melee
/// reach of the player queued an attack on the player and stayed put.
pub open spec fn ai_melee_ok(
    w0: World,
    w: World,
    upto: int,
    cap: int,
    player_pos: Position,
    player_entity: Entity,
) -> bool {
    forall|k: int|
        #![trigger monster_acts(w0, k)]
        0 <= k < cap ==> {
            if k < upto && monster_acts(w0, k) && !w0.confusions@.contains_key(k)
                && in_melee_reach(w0.positions@[k], player_pos) {
                &&& w.melee_intents@.contains_key(k)
                &&& w.melee_intents@[k] == (WantsToMelee { target: player_entity })
                &&& w.positions@[k] == w0.positions@[k]
            } else {
                true
            }
        }
}

/// The viewshed stored for index `k` lists the player's position.
pub open spec fn sees_player_spec(w: World, k: int, player_pos: Position) -> bool {
    exists|t: int|
        0 <= t < w.viewsheds@[k].visible_tiles@.len() && (#[trigger] w.viewsheds@[k].visible_tiles@[t]).x
            == player_pos.x && w.viewsheds@[k].visible_tiles@[t].y == player_pos.y
}

/// Every acting monster still has a position: its old one, or an in-bounds
/// cell one king move away. A monster moves only while giving chase: it is
/// unconfused, out of melee reach, and its viewshed lists the player; the
/// move leaves its viewshed stale.
pub open spec fn ai_move_ok(w0: World, m0: GameMap, w: World, cap: int, player_pos: Position) -> bool {
    forall|k: int|
        #![trigger monster_acts(w0, k)]
        0 <= k < cap && monster_acts(w0, k) ==> {
            &&& w.positions@.contains_key(k)
            &&& (w.positions@[k] == w0.positions@[k] || (king_adj(
                (w0.positions@[k].x as int, w0.positions@[k].y as int),
                (w.positions@[k].x as int, w.positions@[k].y as int),
            ) && m0.spec_in_bounds(w.positions@[k].x as int, w.positions@[k].y as int)))
            &&& w.positions@[k] != w0.positions@[k] ==> {
                &&& !w0.confusions@.contains_key(k)
                &&& !in_melee_reach(w0.positions@[k], player_pos)
                &&& sees_player_spec(w0, k, player_pos)
                &&& w.viewsheds@.contains_key(k)
                &&& w.viewsheds@[k].dirty
            }
        }
}

/// A blocked flag changes only as the handover of a monster that moved:
/// from its old tile to its new one.
pub open spec fn ai_blocked_ok(w0: World, m0: GameMap, w: World, m: GameMap, cap: int) -> bool {
    forall|j: int|
        0 <= j < m0.blocked@.len() && #[trigger] m.blocked@[j] != m0.blocked@[j] ==> exists|i: int|
            {
                &&& 0 <= i < cap
                &&& #[trigger] monster_acts(w0, i)
                &&& w.positions@[i] != w0.positions@[i]
                &&& (j == crate::map::tile_idx(
                    m0.width as int,
                    w0.positions@[i].x as int,
                    w0.positions@[i].y as int,
                ) || j == crate::map::tile_idx(
                    m0.width as int,
                    w.positions@[i].x as int,
                    w.positions@[i].y as int,
                ))
            }
}

/// The chase guard: the monster at `k` sees the player, both stand on the
/// map, and a walk over unblocked tiles joins their tiles.
pub open spec fn chase_possible(w: World, m: GameMap, k: int, player_pos: Position) -> bool {
    &&& sees_player_spec(w, k, player_pos)
    &&& m.spec_in_bounds(w.positions@[k].x as int, w.positions@[k].y as int)
    &&& m.spec_in_bounds(player_pos.x as int, player_pos.y as int)
    &&& crate::pathfinding::path_exists(
        m,
        m.spec_idx(w.positions@[k].x as int, w.positions@[k].y as int),
        m.spec_idx(player_pos.x as int, player_pos.y as int),
    )
}

/// One actor's turn: what index `k` did between `w0, m0` and `w1, m1`. A
/// non-actor changes nothing; a confused actor spends one confusion turn
/// and does nothing else; an unconfused actor in melee reach attacks the
/// player and stays put; one that sees the player with a live path must
/// move, to the second step of a valid walk, handing its blocked flag from
/// its old tile to its new one and leaving its viewshed stale; any other
/// actor stands still.
pub open spec fn ai_step_rel(
    w0: World,
    m0: GameMap,
    w1: World,
    m1: GameMap,
    k: int,
    player_pos: Position,
    player_entity: Entity,
) -> bool {
    if !monster_acts(w0, k) {
        &&& w1 == w0
        &&& m1 == m0
    } else if w0.confusions@.contains_key(k) {
        &&& (w0.confusions@[k].turns - 1 < 1 ==> w1.confusions@ == w0.confusions@.remove(k))
        &&& (w0.confusions@[k].turns - 1 >= 1 ==> w1.confusions@ == w0.confusions@.insert(
            k,
            Confusion { turns: (w0.confusions@[k].turns - 1) as i32 },
        ))
        &&& w1 == (World { confusions: w1.confusions, ..w0 })
        &&& m1 == m0
    } else if in_melee_reach(w0.positions@[k], player_pos) {
        &&& w1.melee_intents@ == w0.melee_intents@.insert(
            k,
            WantsToMelee { target: player_entity },
        )
        &&& w1 == (World { melee_intents: w1.melee_intents, ..w0 })
        &&& m1 == m0
    } else if chase_possible(w0, m0, k, player_pos) {
        &&& w1.positions@.contains_key(k)
        &&& w1.positions@[k] != w0.positions@[k]
        &&& exists|p: Seq<usize>|
            crate::pathfinding::path_valid(
                m0,
                p,
                m0.spec_idx(w0.positions@[k].x as int, w0.positions@[k].y as int),
                m0.spec_idx(player_pos.x as int, player_pos.y as int),
            ) && p.len() > 1 && (w1.positions@[k].x as int, w1.positions@[k].y as int) == cell_of(
                m0.width as int,
                (#[trigger] p[1]) as int,
            )
        &&& w1.positions@ == w0.positions@.insert(k, w1.positions@[k])
        &&& w1.viewsheds@ == w0.viewsheds@.insert(
            k,
            Viewshed { dirty: true, ..w0.viewsheds@[k] },
        )
        &&& w1 == (World { positions: w1.positions, viewsheds: w1.viewsheds, ..w0 })
        &&& m1.blocked@ == m0.blocked@.update(
            m0.spec_idx(w0.positions@[k].x as int, w0.positions@[k].y as int),
            false,
        ).update(m0.spec_idx(w1.positions@[k].x as int, w1.positions@[k].y as int), true)
        &&& m1 == (GameMap { blocked: m1.blocked, ..m0 })
    } else {
        &&& w1 == w0
        &&& m1 == m0
    }
}

/// Entities that are not acting monsters keep their position, viewshed and
/// melee intent.
pub open spec fn ai_frame_ok(w0: World, w: World, cap: int) -> bool {
    forall|k: int|
        #![trigger crate::damage::key_eq(w.positions@, w0.positions@, k)]
        !(0 <= k < cap && monster_acts(w0, k)) ==> {
            &&& crate::damage::key_eq(w.positions@, w0.positions@, k)
            &&& crate::damage::key_eq(w.viewsheds@, w0.viewsheds@, k)
            &&& crate::damage::key_eq(w.melee_intents@, w0.melee_intents@, k)
        }
}

/// Entity indices at or past `from` are completely untouched so far.
pub open spec fn ai_suffix_ok(w0: World, w: World, from: int) -> bool {
    forall|k: int|
        #![trigger crate::damage::key_eq(w.positions@, w0.positions@, k)]
        from <= k ==> {
            &&& crate::damage::key_eq(w.positions@, w0.positions@, k)
            &&& crate::damage::key_eq(w.viewsheds@, w0.viewsheds@, k)
            &&& crate::damage::key_eq(w.melee_intents@, w0.melee_intents@, k)
            &&& crate::damage::key_eq(w.confusions@, w0.confusions@, k)
        }
}

/// Assembles the per-store untouched-suffix facts into [`ai_suffix_ok`].
proof fn lemma_suffix_assemble(w0: World, w: World, from: int)
    requires
        forall|k: int|
            from <= k ==> #[trigger] crate::damage::key_eq(w.positions@, w0.positions@, k),
        forall|k: int|
            from <= k ==> #[trigger] crate::damage::key_eq(w.viewsheds@, w0.viewsheds@, k),
        forall|k: int|
            from <= k ==> #[trigger] crate::damage::key_eq(w.melee_intents@, w0.melee_intents@, k),
        forall|k: int|
            from <= k ==> #[trigger] crate::damage::key_eq(w.confusions@, w0.confusions@, k),
    ensures
        ai_suffix_ok(w0, w, from),
{
}

/// Assembles the per-store non-acting frame facts into [`ai_frame_ok`].
proof fn lemma_frame_assemble(w0: World, w: World, cap: int)
    requires
        forall|k: int|
            !(0 <= k < cap && monster_acts(w0, k)) ==> #[trigger] crate::damage::key_eq(
                w.positions@,
                w0.positions@,
                k,
            ),
        forall|k: int|
            !(0 <= k < cap && monster_acts(w0, k)) ==> #[trigger] crate::damage::key_eq(
                w.viewsheds@,
                w0.viewsheds@,
                k,
            ),
        forall|k: int|
            !(0 <= k < cap && monster_acts(w0, k)) ==> #[trigger] crate::damage::key_eq(
                w.melee_intents@,
                w0.melee_intents@,
                k,
            ),
    ensures
        ai_frame_ok(w0, w, cap),
{
    assert forall|k: int|
        #![trigger crate::damage::key_eq(w.positions@, w0.positions@, k)]
        !(0 <= k < cap && monster_acts(w0, k)) implies {
        &&& crate::damage::key_eq(w.positions@, w0.positions@, k)
        &&& crate::damage::key_eq(w.viewsheds@, w0.viewsheds@, k)
        &&& crate::damage::key_eq(w.melee_intents@, w0.melee_intents@, k)
    } by {
        assert(crate::damage::key_eq(w.positions@, w0.positions@, k));
        assert(crate::damage::key_eq(w.viewsheds@, w0.viewsheds@, k));
        assert(crate::damage::key_eq(w.melee_intents@, w0.melee_intents@, k));
    }
}

/// Drives every monster once per monster-turn phase.
pub struct MonsterAI;

impl MonsterAI {
    /// Outside the monster-turn state nothing happens. During it, each
    /// monster in turn: a confused monster spends one confusion turn and
    /// does nothing (the attribute leaves when its turns run out); a
    /// monster in melee reach queues an attack on the player; otherwise a
    /// monster that can see the player takes one path step toward them,
    /// updating the blocked index and dirtying its viewshed.
    #[verifier::rlimit(100)]
    pub fn run(
        world: &mut World,
        map: &mut GameMap,
        runstate: RunState,
        player_pos: Position,
        player_entity: Entity,
    )
        requires
            old(world).wf(),
            old(map).wf(),
            player_entity.index < u32::MAX,
        ensures
            final(world).wf(),
            final(map).wf(),
            runstate != RunState::MonsterTurn ==> *final(world) == *old(world) && *final(map)
                == *old(map),
            *final(world) == (World {
                positions: final(world).positions,
                viewsheds: final(world).viewsheds,
                melee_intents: final(world).melee_intents,
                confusions: final(world).confusions,
                ..*old(world)
            }),
            *final(map) == (GameMap { blocked: final(map).blocked, ..*old(map) }),
            final(map).blocked@.len() == old(map).blocked@.len(),
            runstate == RunState::MonsterTurn ==> ai_confusion_ok(
                *old(world),
                *final(world),
                old(world).entities.spec_capacity() as int,
                old(world).entities.spec_capacity() as int,
            ),
            runstate == RunState::MonsterTurn ==> ai_melee_ok(
                *old(world),
                *final(world),
                old(world).entities.spec_capacity() as int,
                old(world).entities.spec_capacity() as int,
                player_pos,
                player_entity,
            ),
            runstate == RunState::MonsterTurn ==> ai_move_ok(
                *old(world),
                *old(map),
                *final(world),
                old(world).entities.spec_capacity() as int,
                player_pos,
            ),
            runstate == RunState::MonsterTurn ==> ai_blocked_ok(
                *old(world),
                *old(map),
                *final(world),
                *final(map),
                old(world).entities.spec_capacity() as int,
            ),
            ai_frame_ok(*old(world), *final(world), old(world).entities.spec_capacity() as int),
            // the pass visits slots in index order; each actor's forced turn
            runstate == RunState::MonsterTurn ==> exists|tr: Seq<(World, GameMap)>|
                {
                    &&& tr.len() == old(world).entities.spec_capacity() + 1
                    &&& tr[0] == (*old(world), *old(map))
                    &&& (forall|k: int|
                        0 <= k < old(world).entities.spec_capacity() ==> #[trigger] ai_step_rel(
                            tr[k].0,
                            tr[k].1,
                            tr[k + 1].0,
                            tr[k + 1].1,
                            k,
                            player_pos,
                            player_entity,
                        ))
                    &&& tr[old(world).entities.spec_capacity() as int] == (
                    *final(world),
                    *final(map),
                    )
                },
    {
        if runstate != RunState::MonsterTurn {
            return ;
        }
        let cap = world.entities.capacity();
        let ghost mut tr: Seq<(World, GameMap)> = Seq::empty().push((*world, *map));
        let mut i: usize = 0;
        while i < cap
            invariant
                world.wf(),
                map.wf(),
                cap == old(world).entities.spec_capacity(),
                world.entities == old(world).entities,
                i <= cap,
                player_entity.index < u32::MAX,
                *world == (World {
                    positions: world.positions,
                    viewsheds: world.viewsheds,
                    melee_intents: world.melee_intents,
                    confusions: world.confusions,
                    ..*old(world)
                }),
                *map == (GameMap { blocked: map.blocked, ..*old(map) }),
                map.blocked@.len() == old(map).blocked@.len(),
                ai_confusion_ok(*old(world), *world, i as int, cap as int),
                ai_melee_ok(*old(world), *world, i as int, cap as int, player_pos, player_entity),
                ai_move_ok(*old(world), *old(map), *world, cap as int, player_pos),
                ai_blocked_ok(*old(world), *old(map), *world, *map, cap as int),
                ai_frame_ok(*old(world), *world, cap as int),
                ai_suffix_ok(*old(world), *world, i as int),
                tr.len() == i + 1,
                tr[0] == (*old(world), *old(map)),
                forall|k: int|
                    0 <= k < i ==> #[trigger] ai_step_rel(
                        tr[k].0,
                        tr[k].1,
                        tr[k + 1].0,
                        tr[k + 1].1,
                        k,
                        player_pos,
                        player_entity,
                    ),
                tr[i as int] == (*world, *map),
            decreases cap - i,
        {
            let ghost w_pre = *world;
            let ghost m_pre = *map;
            let mut acted = false;
            let mut branch_melee = false;
            let mut branch_moved = false;
            let ghost mut moved_to = Position { x: 0, y: 0 };
            let ghost mut moved_from_idx: int = 0;
            let ghost mut moved_to_idx: int = 0;
            proof {
                assert(crate::damage::key_eq(world.positions@, old(world).positions@, i as int));
                assert(crate::damage::key_eq(world.viewsheds@, old(world).viewsheds@, i as int));
                assert(crate::damage::key_eq(
                    world.melee_intents@,
                    old(world).melee_intents@,
                    i as int,
                ));
                assert(crate::damage::key_eq(world.confusions@, old(world).confusions@, i as int));
            }
            if world.entities.live_at(i).is_some() && world.monsters.contains(i)
                && world.viewsheds.contains(i) && world.positions.contains(i) {
                acted = true;
                proof {
                    assert(monster_acts(*old(world), i as int));
                }
                // A confused monster spends the turn recovering.
                if world.confusions.contains(i) {
                    let turns = match world.confusions.get(i) {
                        Some(c) => c.turns,
                        None => 0,
                    };
                    let new_turns = if turns > i32::MIN {
                        turns - 1
                    } else {
                        turns
                    };
                    if new_turns < 1 {
                        world.confusions.remove(i);
                    } else {
                        world.confusions.insert(i, Confusion { turns: new_turns });
                    }
                    proof {
                        assert(monster_acts(w_pre, i as int));
                        assert(ai_step_rel(
                            w_pre,
                            m_pre,
                            *world,
                            *map,
                            i as int,
                            player_pos,
                            player_entity,
                        ));
                    }
                } else {
                    let pos = match world.positions.get(i) {
                        Some(p) => *p,
                        None => Position { x: 0, y: 0 },
                    };
                    let dx64: i64 = pos.x as i64 - player_pos.x as i64;
                    let dy64: i64 = pos.y as i64 - player_pos.y as i64;
                    let near = -1 <= dx64 && dx64 <= 1 && -1 <= dy64 && dy64 <= 1;
                    proof {
                        assert(near == in_melee_reach(pos, player_pos)) by (nonlinear_arith)
                            requires
                                dx64 == pos.x as int - player_pos.x as int,
                                dy64 == pos.y as int - player_pos.y as int,
                                near == (-1 <= dx64 <= 1 && -1 <= dy64 <= 1),
                                in_melee_reach(pos, player_pos) == (dx64 * dx64 + dy64 * dy64
                                    <= 2),
                        ;
                    }
                    if near {
                        // Close enough: attack, do not move.
                        world.melee_intents.insert(
                            i,
                            WantsToMelee { target: player_entity },
                        );
                        branch_melee = true;
                        proof {
                            assert(world.melee_intents@ == w_pre.melee_intents@.insert(
                                i as int,
                                WantsToMelee { target: player_entity },
                            ));
                            assert(world.positions@ == w_pre.positions@);
                            assert(in_melee_reach(old(world).positions@[i as int], player_pos));
                            assert(monster_acts(w_pre, i as int));
                            assert(in_melee_reach(w_pre.positions@[i as int], player_pos));
                            assert(ai_step_rel(
                                w_pre,
                                m_pre,
                                *world,
                                *map,
                                i as int,
                                player_pos,
                                player_entity,
                            ));
                        }
                    } else {
                        // Give chase when the player is in this monster's sight.
                        let mut sees_player = false;
                        let vt_len = match world.viewsheds.get(i) {
                            Some(vs) => vs.visible_tiles.len(),
                            None => 0,
                        };
                        let mut t: usize = 0;
                        while t < vt_len
                            invariant
                                world.wf(),
                                world.viewsheds@.contains_key(i as int),
                                vt_len == world.viewsheds@[i as int].visible_tiles@.len(),
                                t <= vt_len,
                                sees_player == exists|t2: int|
                                    0 <= t2 < t && (#[trigger] world.viewsheds@[i as int].visible_tiles@[t2]).x
                                        == player_pos.x
                                        && world.viewsheds@[i as int].visible_tiles@[t2].y
                                        == player_pos.y,
                            decreases vt_len - t,
                        {
                            let same = match world.viewsheds.get(i) {
                                Some(vs) => {
                                    let c = vs.visible_tiles[t];
                                    c.x == player_pos.x && c.y == player_pos.y
                                },
                                None => false,
                            };
                            if same {
                                sees_player = true;
                            }
                            t = t + 1;
                        }
                        proof {
                            assert(sees_player == sees_player_spec(*old(world), i as int, player_pos));
                            assert(w_pre.viewsheds@[i as int] == old(world).viewsheds@[i as int]);
                            assert(sees_player == sees_player_spec(w_pre, i as int, player_pos));
                        }
                        if sees_player && map.in_bounds(pos.x, pos.y) && map.in_bounds(
                            player_pos.x,
                            player_pos.y,
                        ) {
                            let start = map.xy_idx(pos.x, pos.y);
                            let goal = map.xy_idx(player_pos.x, player_pos.y);
                            match a_star_search(map, start, goal) {
                                None => {
                                    proof {
                                        assert(!crate::pathfinding::path_exists(
                                            m_pre,
                                            start as int,
                                            goal as int,
                                        ));
                                        assert(!chase_possible(
                                            w_pre,
                                            m_pre,
                                            i as int,
                                            player_pos,
                                        ));
                                        assert(ai_step_rel(
                                            w_pre,
                                            m_pre,
                                            *world,
                                            *map,
                                            i as int,
                                            player_pos,
                                            player_entity,
                                        ));
                                    }
                                },
                                Some(path) => {
                                if path.len() > 1 {
                                    let next = path[1];
                                    let nx = (next % (map.width as usize)) as i32;
                                    let ny = (next / (map.width as usize)) as i32;
                                    proof {
                                        let ghost ni = next as int;
                                        let ghost wi = map.width as int;
                                        let ghost hi = map.height as int;
                                        assert(crate::pathfinding::step_ok(
                                            *map,
                                            path@[0] as int,
                                            path@[1] as int,
                                        ));
                                        assert(0 <= ni % wi < wi && 0 <= ni / wi
                                            < hi) by (nonlinear_arith)
                                            requires
                                                0 <= ni,
                                                ni < wi * hi,
                                                3 <= wi,
                                                3 <= hi,
                                        ;
                                        assert(cell_of(wi, start as int) == (
                                            pos.x as int,
                                            pos.y as int,
                                        )) by (nonlinear_arith)
                                            requires
                                                start as int == pos.y as int * wi + pos.x as int,
                                                0 <= pos.x < wi,
                                                0 <= pos.y as int,
                                                pos.y < hi,
                                                3 <= wi,
                                        ;
                                    }
                                    let old_idx = map.xy_idx(pos.x, pos.y);
                                    map.blocked.set(old_idx, false);
                                    world.positions.insert(i, Position { x: nx, y: ny });
                                    let new_idx = map.xy_idx(nx, ny);
                                    map.blocked.set(new_idx, true);
                                    match world.viewsheds.take(i) {
                                        Some(mut vs) => {
                                            vs.dirty = true;
                                            world.viewsheds.insert(i, vs);
                                        },
                                        None => {},
                                    }
                                    branch_moved = true;
                                    proof {
                                        moved_to = Position { x: nx, y: ny };
                                        assert(world.positions@ == w_pre.positions@.insert(
                                            i as int,
                                            Position { x: nx, y: ny },
                                        ));
                                        assert(cell_of(map.width as int, next as int) == (
                                            nx as int,
                                            ny as int,
                                        ));
                                        assert(king_adj(
                                            (pos.x as int, pos.y as int),
                                            (nx as int, ny as int),
                                        ));
                                        assert(pos == old(world).positions@[i as int]);
                                        assert(moved_to != pos);
                                        assert(old(map).spec_in_bounds(nx as int, ny as int));
                                        assert(world.melee_intents@ == w_pre.melee_intents@);
                                        // the chase conditions that allowed this move
                                        assert(!old(world).confusions@.contains_key(i as int));
                                        assert(!in_melee_reach(
                                            old(world).positions@[i as int],
                                            player_pos,
                                        ));
                                        assert(sees_player_spec(
                                            *old(world),
                                            i as int,
                                            player_pos,
                                        ));
                                        assert(world.viewsheds@.contains_key(i as int)
                                            && world.viewsheds@[i as int].dirty);
                                        // the blocked handover this move performed
                                        moved_from_idx = old_idx as int;
                                        moved_to_idx = new_idx as int;
                                        assert(moved_from_idx == crate::map::tile_idx(
                                            old(map).width as int,
                                            pos.x as int,
                                            pos.y as int,
                                        ));
                                        assert(moved_to_idx == crate::map::tile_idx(
                                            old(map).width as int,
                                            nx as int,
                                            ny as int,
                                        ));
                                        assert(map.blocked@ == m_pre.blocked@.update(
                                            moved_from_idx,
                                            false,
                                        ).update(moved_to_idx, true));
                                        // the forced-chase step relation holds
                                        assert(monster_acts(w_pre, i as int));
                                        assert(pos == w_pre.positions@[i as int]);
                                        assert(crate::pathfinding::path_valid(
                                            m_pre,
                                            path@,
                                            start as int,
                                            goal as int,
                                        ));
                                        assert(chase_possible(
                                            w_pre,
                                            m_pre,
                                            i as int,
                                            player_pos,
                                        ));
                                        assert(world.viewsheds@ =~= w_pre.viewsheds@.insert(
                                            i as int,
                                            Viewshed {
                                                dirty: true,
                                                ..w_pre.viewsheds@[i as int]
                                            },
                                        ));
                                        assert(path@.len() > 1 && (
                                        world.positions@[i as int].x as int,
                                        world.positions@[i as int].y as int,
                                        ) == cell_of(
                                            m_pre.width as int,
                                            (path@[1]) as int,
                                        ));
                                        assert(ai_step_rel(
                                            w_pre,
                                            m_pre,
                                            *world,
                                            *map,
                                            i as int,
                                            player_pos,
                                            player_entity,
                                        ));
                                    }
                                } else {
                                    proof {
                                        // a valid walk between two distinct
                                        // tiles has at least two steps
                                        assert(crate::pathfinding::path_valid(
                                            m_pre,
                                            path@,
                                            start as int,
                                            goal as int,
                                        ));
                                        assert(path@[0] == start && path@.last() == goal);
                                        assert(start == goal);
                                        assert(pos.x == player_pos.x && pos.y
                                            == player_pos.y) by (nonlinear_arith)
                                            requires
                                                start as int == pos.y as int * (
                                                m_pre.width as int) + pos.x as int,
                                                goal as int == player_pos.y as int * (
                                                m_pre.width as int) + player_pos.x as int,
                                                start == goal,
                                                0 <= pos.x < m_pre.width as int,
                                                0 <= player_pos.x < m_pre.width as int,
                                        ;
                                        assert(in_melee_reach(pos, player_pos));
                                        assert(false);
                                    }
                                }
                                },
                            }
                        } else {
                            proof {
                                assert(!chase_possible(w_pre, m_pre, i as int, player_pos));
                                assert(ai_step_rel(
                                    w_pre,
                                    m_pre,
                                    *world,
                                    *map,
                                    i as int,
                                    player_pos,
                                    player_entity,
                                ));
                            }
                        }
                    }
                }
            }
            proof {
                let ghost ii = i as int;
                assert(ai_confusion_ok(*old(world), w_pre, i as int, cap as int));
                assert(ai_melee_ok(
                    *old(world),
                    w_pre,
                    i as int,
                    cap as int,
                    player_pos,
                    player_entity,
                ));
                assert(ai_move_ok(*old(world), *old(map), w_pre, cap as int, player_pos));
                assert(ai_blocked_ok(*old(world), *old(map), w_pre, m_pre, cap as int));
                assert(ai_frame_ok(*old(world), w_pre, cap as int));
                assert(branch_melee ==> !branch_moved);
                assert(branch_melee ==> world.melee_intents@ == w_pre.melee_intents@.insert(
                    ii,
                    WantsToMelee { target: player_entity },
                ));
                assert(branch_moved ==> world.positions@ == w_pre.positions@.insert(
                    ii,
                    moved_to,
                ));
                assert(!branch_moved ==> world.positions@ == w_pre.positions@);
                assert(!branch_melee ==> world.melee_intents@ == w_pre.melee_intents@);
                assert(!acted ==> world.viewsheds@ == w_pre.viewsheds@ && world.confusions@
                    == w_pre.confusions@);
                assert(branch_melee ==> monster_acts(*old(world), ii) && !old(
                    world,
                ).confusions@.contains_key(ii) && in_melee_reach(
                    old(world).positions@[ii],
                    player_pos,
                ));
                assert((monster_acts(*old(world), ii) && !old(world).confusions@.contains_key(ii)
                    && in_melee_reach(old(world).positions@[ii], player_pos)) ==> branch_melee);
                if monster_acts(*old(world), ii) {
                    assert(world.positions@.contains_key(ii));
                    if branch_moved {
                        assert(world.positions@[ii] == moved_to);
                        assert(king_adj(
                            (
                                old(world).positions@[ii].x as int,
                                old(world).positions@[ii].y as int,
                            ),
                            (world.positions@[ii].x as int, world.positions@[ii].y as int),
                        ) && old(map).spec_in_bounds(
                            world.positions@[ii].x as int,
                            world.positions@[ii].y as int,
                        ));
                    } else {
                        assert(world.positions@[ii] == old(world).positions@[ii]);
                    }
                } else {
                    assert(!acted);
                    assert(crate::damage::key_eq(world.positions@, old(world).positions@, ii));
                    assert(crate::damage::key_eq(world.viewsheds@, old(world).viewsheds@, ii));
                    assert(crate::damage::key_eq(
                        world.melee_intents@,
                        old(world).melee_intents@,
                        ii,
                    ));
                }
                assert forall|k: int| k != i as int implies {
                    &&& crate::damage::key_eq(world.positions@, w_pre.positions@, k)
                    &&& crate::damage::key_eq(world.viewsheds@, w_pre.viewsheds@, k)
                    &&& crate::damage::key_eq(world.melee_intents@, w_pre.melee_intents@, k)
                    &&& crate::damage::key_eq(world.confusions@, w_pre.confusions@, k)
                } by {}
                assert forall|k: int|
                    i + 1 <= k implies #[trigger] crate::damage::key_eq(
                    world.positions@,
                    old(world).positions@,
                    k,
                ) by {
                    assert(crate::damage::key_eq(world.positions@, w_pre.positions@, k));
                    assert(crate::damage::key_eq(w_pre.positions@, old(world).positions@, k));
                }
                assert forall|k: int|
                    i + 1 <= k implies #[trigger] crate::damage::key_eq(
                    world.viewsheds@,
                    old(world).viewsheds@,
                    k,
                ) by {
                    assert(crate::damage::key_eq(w_pre.positions@, old(world).positions@, k));
                    assert(crate::damage::key_eq(world.viewsheds@, w_pre.viewsheds@, k));
                    assert(crate::damage::key_eq(w_pre.viewsheds@, old(world).viewsheds@, k));
                }
                assert forall|k: int|
                    i + 1 <= k implies #[trigger] crate::damage::key_eq(
                    world.melee_intents@,
                    old(world).melee_intents@,
                    k,
                ) by {
                    assert(crate::damage::key_eq(w_pre.positions@, old(world).positions@, k));
                    assert(crate::damage::key_eq(world.melee_intents@, w_pre.melee_intents@, k));
                    assert(crate::damage::key_eq(
                        w_pre.melee_intents@,
                        old(world).melee_intents@,
                        k,
                    ));
                }
                assert forall|k: int|
                    i + 1 <= k implies #[trigger] crate::damage::key_eq(
                    world.confusions@,
                    old(world).confusions@,
                    k,
                ) by {
                    assert(crate::damage::key_eq(w_pre.positions@, old(world).positions@, k));
                    assert(crate::damage::key_eq(world.confusions@, w_pre.confusions@, k));
                    assert(crate::damage::key_eq(w_pre.confusions@, old(world).confusions@, k));
                }
                lemma_suffix_assemble(*old(world), *world, i + 1);

                assert(ai_confusion_ok(*old(world), *world, i + 1, cap as int)) by {
                    assert forall|k: int|
                        #![trigger monster_acts(*old(world), k)]
                        #![trigger old(world).confusions@.contains_key(k)]
                        0 <= k < cap implies {
                        if k < i + 1 && monster_acts(*old(world), k) && old(
                            world,
                        ).confusions@.contains_key(k) {
                            &&& (old(world).confusions@[k].turns - 1 < 1 ==> !world.confusions@.contains_key(
                                k,
                            ))
                            &&& (old(world).confusions@[k].turns - 1 >= 1
                                ==> world.confusions@.contains_key(k) && world.confusions@[k] == (
                            Confusion { turns: (old(world).confusions@[k].turns - 1) as i32 }))
                            &&& world.positions@[k] == old(world).positions@[k]
                            &&& world.melee_intents@.contains_key(k) == old(
                                world,
                            ).melee_intents@.contains_key(k)
                        } else {
                            world.confusions@.contains_key(k) == old(
                                world,
                            ).confusions@.contains_key(k) && (old(world).confusions@.contains_key(
                                k,
                            ) ==> world.confusions@[k] == old(world).confusions@[k])
                        }
                    } by {
                        let ghost ma = monster_acts(*old(world), k);
                        if k != ii {
                            assert(crate::damage::key_eq(
                                world.confusions@,
                                w_pre.confusions@,
                                k,
                            ));
                            assert(crate::damage::key_eq(world.positions@, w_pre.positions@, k));
                            assert(crate::damage::key_eq(
                                world.melee_intents@,
                                w_pre.melee_intents@,
                                k,
                            ));
                        }
                    }
                }
                assert(ai_melee_ok(
                    *old(world),
                    *world,
                    i + 1,
                    cap as int,
                    player_pos,
                    player_entity,
                )) by {
                    assert forall|k: int|
                        #![trigger monster_acts(*old(world), k)]
                        0 <= k < cap implies {
                        if k < i + 1 && monster_acts(*old(world), k) && !old(
                            world,
                        ).confusions@.contains_key(k) && in_melee_reach(
                            old(world).positions@[k],
                            player_pos,
                        ) {
                            &&& world.melee_intents@.contains_key(k)
                            &&& world.melee_intents@[k] == (WantsToMelee {
                                target: player_entity,
                            })
                            &&& world.positions@[k] == old(world).positions@[k]
                        } else {
                            true
                        }
                    } by {
                        if k == ii {
                            if monster_acts(*old(world), k) && !old(
                                world,
                            ).confusions@.contains_key(k) && in_melee_reach(
                                old(world).positions@[k],
                                player_pos,
                            ) {
                                assert(branch_melee);
                                assert(world.melee_intents@.contains_key(k));
                                assert(world.melee_intents@[k] == (WantsToMelee {
                                    target: player_entity,
                                }));
                                assert(world.positions@[k] == old(world).positions@[k]);
                            }
                        } else if k < ii {
                            assert(crate::damage::key_eq(
                                world.melee_intents@,
                                w_pre.melee_intents@,
                                k,
                            ));
                            assert(crate::damage::key_eq(world.positions@, w_pre.positions@, k));
                        }
                    }
                }
                assert(ai_move_ok(*old(world), *old(map), *world, cap as int, player_pos)) by {
                    assert forall|k: int|
                        #![trigger monster_acts(*old(world), k)]
                        0 <= k < cap && monster_acts(*old(world), k) implies {
                        &&& world.positions@.contains_key(k)
                        &&& (world.positions@[k] == old(world).positions@[k] || (king_adj(
                            (
                                old(world).positions@[k].x as int,
                                old(world).positions@[k].y as int,
                            ),
                            (world.positions@[k].x as int, world.positions@[k].y as int),
                        ) && old(map).spec_in_bounds(
                            world.positions@[k].x as int,
                            world.positions@[k].y as int,
                        )))
                        &&& world.positions@[k] != old(world).positions@[k] ==> {
                            &&& !old(world).confusions@.contains_key(k)
                            &&& !in_melee_reach(old(world).positions@[k], player_pos)
                            &&& sees_player_spec(*old(world), k, player_pos)
                            &&& world.viewsheds@.contains_key(k)
                            &&& world.viewsheds@[k].dirty
                        }
                    } by {
                        if k != ii {
                            assert(crate::damage::key_eq(world.positions@, w_pre.positions@, k));
                            assert(crate::damage::key_eq(world.viewsheds@, w_pre.viewsheds@, k));
                        } else {
                            assert(world.positions@.contains_key(k));
                            if branch_moved {
                                assert(world.positions@[k] == moved_to);
                                assert(king_adj(
                                    (
                                        old(world).positions@[k].x as int,
                                        old(world).positions@[k].y as int,
                                    ),
                                    (world.positions@[k].x as int, world.positions@[k].y as int),
                                ) && old(map).spec_in_bounds(
                                    world.positions@[k].x as int,
                                    world.positions@[k].y as int,
                                ));
                                assert(!old(world).confusions@.contains_key(k));
                                assert(!in_melee_reach(old(world).positions@[k], player_pos));
                                assert(sees_player_spec(*old(world), k, player_pos));
                                assert(world.viewsheds@.contains_key(k)
                                    && world.viewsheds@[k].dirty);
                            } else {
                                assert(world.positions@[k] == old(world).positions@[k]);
                            }
                        }
                    }
                }
                assert(ai_blocked_ok(*old(world), *old(map), *world, *map, cap as int)) by {
                    assert forall|j: int|
                        0 <= j < old(map).blocked@.len() && #[trigger] map.blocked@[j] != old(
                            map,
                        ).blocked@[j] implies exists|i2: int|
                        {
                            &&& 0 <= i2 < cap
                            &&& #[trigger] monster_acts(*old(world), i2)
                            &&& world.positions@[i2] != old(world).positions@[i2]
                            &&& (j == crate::map::tile_idx(
                                old(map).width as int,
                                old(world).positions@[i2].x as int,
                                old(world).positions@[i2].y as int,
                            ) || j == crate::map::tile_idx(
                                old(map).width as int,
                                world.positions@[i2].x as int,
                                world.positions@[i2].y as int,
                            ))
                        } by {
                        if m_pre.blocked@[j] != old(map).blocked@[j] {
                            // a handover from an earlier iteration still stands
                            let i2 = choose|i2: int|
                                {
                                    &&& 0 <= i2 < cap
                                    &&& #[trigger] monster_acts(*old(world), i2)
                                    &&& w_pre.positions@[i2] != old(world).positions@[i2]
                                    &&& (j == crate::map::tile_idx(
                                        old(map).width as int,
                                        old(world).positions@[i2].x as int,
                                        old(world).positions@[i2].y as int,
                                    ) || j == crate::map::tile_idx(
                                        old(map).width as int,
                                        w_pre.positions@[i2].x as int,
                                        w_pre.positions@[i2].y as int,
                                    ))
                                };
                            assert(i2 != ii);
                            assert(crate::damage::key_eq(world.positions@, w_pre.positions@, i2));
                            assert(world.positions@[i2] == w_pre.positions@[i2]);
                        } else {
                            // the change happened in this iteration's handover
                            assert(branch_moved);
                            assert(j == moved_from_idx || j == moved_to_idx);
                            assert(monster_acts(*old(world), ii));
                            assert(world.positions@[ii] == moved_to);
                            assert(world.positions@[ii] != old(world).positions@[ii]);
                        }
                    }
                }
                assert forall|k: int|
                    !(0 <= k < cap && monster_acts(*old(world), k)) implies #[trigger] crate::damage::key_eq(
                    world.positions@,
                    old(world).positions@,
                    k,
                ) by {
                    if k != ii {
                        assert(crate::damage::key_eq(world.positions@, w_pre.positions@, k));
                        assert(crate::damage::key_eq(w_pre.positions@, old(world).positions@, k));
                    } else {
                        assert(!acted);
                    }
                }
                assert forall|k: int|
                    !(0 <= k < cap && monster_acts(*old(world), k)) implies #[trigger] crate::damage::key_eq(
                    world.viewsheds@,
                    old(world).viewsheds@,
                    k,
                ) by {
                    if k != ii {
                        assert(crate::damage::key_eq(w_pre.positions@, old(world).positions@, k));
                        assert(crate::damage::key_eq(world.viewsheds@, w_pre.viewsheds@, k));
                        assert(crate::damage::key_eq(w_pre.viewsheds@, old(world).viewsheds@, k));
                    } else {
                        assert(!acted);
                    }
                }
                assert forall|k: int|
                    !(0 <= k < cap && monster_acts(*old(world), k)) implies #[trigger] crate::damage::key_eq(
                    world.melee_intents@,
                    old(world).melee_intents@,
                    k,
                ) by {
                    if k != ii {
                        assert(crate::damage::key_eq(w_pre.positions@, old(world).positions@, k));
                        assert(crate::damage::key_eq(
                            world.melee_intents@,
                            w_pre.melee_intents@,
                            k,
                        ));
                        assert(crate::damage::key_eq(
                            w_pre.melee_intents@,
                            old(world).melee_intents@,
                            k,
                        ));
                    } else {
                        assert(!acted);
                    }
                }
                lemma_frame_assemble(*old(world), *world, cap as int);
                if !acted {
                    assert(!monster_acts(w_pre, i as int));
                }
                assert(ai_step_rel(
                    w_pre,
                    m_pre,
                    *world,
                    *map,
                    i as int,
                    player_pos,
                    player_entity,
                ));
                tr = tr.push((*world, *map));
            }
            i = i + 1;
        }
        proof {
            assert(tr.len() == cap + 1);
            assert(tr[0] == (*old(world), *old(map)));
            assert(tr[cap as int] == (*world, *map));
        }
    }
}

} // verus!
