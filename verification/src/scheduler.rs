//! The top-level state machine: sequences the per-tick pipeline and walks
//! the run states that the external input and render collaborators see.

use vstd::prelude::*;
use vstd::string::StringExecFns;

use crate::components::{Position, WantsToDropItem, WantsToUseItem};
use crate::damage::{delete_the_dead, DamageSystem};
use crate::entity::Entity;
use crate::gamelog::GameLog;
use crate::inventory::{ItemCollectionSystem, ItemDropSystem, ItemUseSystem};
use crate::map::GameMap;
use crate::map_indexer::MapIndexingSystem;
use crate::mapgen::gen_inv;
use crate::melee::MeleeCombatSystem;
use crate::monster_ai::MonsterAI;
use crate::player::{player_input, PlayerCommand};
use crate::rng::Rng;
use crate::runstate::{ItemMenuResult, MainMenuResult, MainMenuSelection, RunState};
use crate::spawner::{player as spawn_player, spawn_room};
use crate::visibility::VisibilitySystem;
use crate::world::World;

verus! {

/// What an external collaborator produced for this frame.
#[derive(PartialEq, Eq, Structural, Copy, Clone, Debug)]
pub enum ExternalResponse {
    /// Nothing to hand in (render-only frame).
    Frame,
    /// The decoded player command, if a key was pressed.
    Command(Option<PlayerCommand>),
    /// The main menu interaction result.
    Menu(MainMenuResult),
    /// The item dialog result.
    ItemChoice(ItemMenuResult<Entity>),
    /// The targeting overlay result.
    TargetChoice(ItemMenuResult<Position>),
}

/// What the scheduler asks the external shell to do after this tick.
#[derive(PartialEq, Eq, Structural, Copy, Clone, Debug)]
pub enum EngineRequest {
    Nothing,
    SaveGame,
    LoadGame,
    Quit,
}

/// Global game state: the world, the current level, and the scheduler's
/// bookkeeping resources.
pub struct State {
    pub world: World,
    pub map: GameMap,
    pub runstate: RunState,
    pub player_entity: Entity,
    pub player_pos: Position,
    pub log: GameLog,
    pub rng: Rng,
    pub game_over: bool,
}

/// The run state one tick moves to, given the current state and the
/// external response; the full transition table of the scheduler.
pub open spec fn spec_next_state(s: State, response: ExternalResponse) -> RunState {
    match s.runstate {
        RunState::MainMenu { menu_selection } => match response {
            ExternalResponse::Menu(MainMenuResult::NoSelection(sel)) => RunState::MainMenu {
                menu_selection: sel,
            },
            ExternalResponse::Menu(MainMenuResult::Selected(sel)) => match sel {
                MainMenuSelection::NewGame => RunState::PreRun,
                MainMenuSelection::LoadGame => RunState::AwaitingInput,
                MainMenuSelection::Quit => RunState::MainMenu { menu_selection },
            },
            _ => RunState::MainMenu { menu_selection },
        },
        RunState::SaveGame => RunState::MainMenu { menu_selection: MainMenuSelection::LoadGame },
        RunState::NextLevel => RunState::PreRun,
        RunState::PreRun => RunState::AwaitingInput,
        RunState::AwaitingInput => match response {
            ExternalResponse::Command(cmd) => match cmd {
                None => RunState::AwaitingInput,
                Some(PlayerCommand::OpenInventory) => RunState::ShowInventory,
                Some(PlayerCommand::OpenDropMenu) => RunState::ShowDropItem,
                Some(_) => RunState::PlayerTurn,
            },
            _ => RunState::AwaitingInput,
        },
        RunState::PlayerTurn => RunState::MonsterTurn,
        RunState::MonsterTurn => RunState::AwaitingInput,
        RunState::ShowInventory => match response {
            ExternalResponse::ItemChoice(ItemMenuResult::Cancel) => RunState::AwaitingInput,
            ExternalResponse::ItemChoice(ItemMenuResult::Selected(item)) => {
                if s.world.ranged_items@.contains_key(item.index as int) {
                    RunState::ShowTargeting {
                        range: s.world.ranged_items@[item.index as int].range,
                        item,
                    }
                } else {
                    RunState::PlayerTurn
                }
            },
            _ => RunState::ShowInventory,
        },
        RunState::ShowDropItem => match response {
            ExternalResponse::ItemChoice(ItemMenuResult::Cancel) => RunState::AwaitingInput,
            ExternalResponse::ItemChoice(ItemMenuResult::Selected(item)) => RunState::PlayerTurn,
            _ => RunState::ShowDropItem,
        },
        RunState::ShowTargeting { range, item } => match response {
            ExternalResponse::TargetChoice(ItemMenuResult::Cancel) => RunState::AwaitingInput,
            ExternalResponse::TargetChoice(ItemMenuResult::Selected(t)) => RunState::PlayerTurn,
            _ => RunState::ShowTargeting { range, item },
        },
    }
}

/// The shell request a tick raises.
pub open spec fn spec_request(s: State, response: ExternalResponse) -> EngineRequest {
    match s.runstate {
        RunState::MainMenu { menu_selection } => match response {
            ExternalResponse::Menu(MainMenuResult::Selected(MainMenuSelection::LoadGame)) => EngineRequest::LoadGame,
            ExternalResponse::Menu(MainMenuResult::Selected(MainMenuSelection::Quit)) => EngineRequest::Quit,
            _ => EngineRequest::Nothing,
        },
        RunState::SaveGame => EngineRequest::SaveGame,
        _ => EngineRequest::Nothing,
    }
}

/// Entity `e` survives the descent to the next level: it is the player, or
/// an item the player carries.
pub open spec fn survives_level_change(w: World, pe: Entity, e: Entity) -> bool {
    ||| e == pe
    ||| (w.backpacks@.contains_key(e.index as int) && w.backpacks@[e.index as int].owner == pe)
}

/// The pipeline's stages ran once from state `s0`, in their fixed order:
/// visibility, monster AI and map indexing first, then melee, damage,
/// pickup, drop and item use, each stage meeting its own contract over the
/// intermediate state the previous one left, ending at `w_out` with the
/// freshly indexed map `m_out`.
pub open spec fn pipeline_ok(s0: State, w_out: World, m_out: GameMap) -> bool {
    &&& exists|w_v: World, m_v: GameMap, w_a: World, m_a: GameMap, m_x: GameMap|
        #![trigger w_v.viewsheds@, m_v.blocked@, w_a.positions@, m_a.blocked@, m_x.blocked@]
        {
            &&& (forall|i: int|
                0 <= i < s0.world.entities.spec_capacity()
                    && crate::visibility::vs_processed(s0.world, i)
                    ==> #[trigger] crate::visibility::viewshed_fresh(
                    s0.world,
                    w_v,
                    s0.map,
                    i,
                ))
            &&& (s0.runstate == RunState::MonsterTurn
                ==> crate::monster_ai::ai_confusion_ok(
                w_v,
                w_a,
                w_v.entities.spec_capacity() as int,
                w_v.entities.spec_capacity() as int,
            ) && crate::monster_ai::ai_melee_ok(
                w_v,
                w_a,
                w_v.entities.spec_capacity() as int,
                w_v.entities.spec_capacity() as int,
                s0.player_pos,
                s0.player_entity,
            ) && crate::monster_ai::ai_move_ok(
                w_v,
                m_v,
                w_a,
                w_v.entities.spec_capacity() as int,
                s0.player_pos,
            ) && crate::monster_ai::ai_blocked_ok(
                w_v,
                m_v,
                w_a,
                m_a,
                w_v.entities.spec_capacity() as int,
            ) && (exists|tra: Seq<(World, GameMap)>|
                {
                    &&& tra.len() == w_v.entities.spec_capacity() + 1
                    &&& tra[0] == (w_v, m_v)
                    &&& (forall|k: int|
                        0 <= k < w_v.entities.spec_capacity()
                            ==> #[trigger] crate::monster_ai::ai_step_rel(
                            tra[k].0,
                            tra[k].1,
                            tra[k + 1].0,
                            tra[k + 1].1,
                            k,
                            s0.player_pos,
                            s0.player_entity,
                        ))
                    &&& tra[w_v.entities.spec_capacity() as int] == (w_a, m_a)
                }))
            &&& crate::map_indexer::indexed(w_a, m_x)
        }
    &&& exists|w_x: World, w_m: World, w_d: World, w_p: World, w_r: World|
        #![trigger w_x.damage_queue@, w_m.damage_queue@, w_d.damage_queue@, w_p.positions@, w_r.positions@]
        {
            &&& (forall|v: int|
                crate::components::queued_damage(w_m.damage_queue@, v)
                    == crate::components::queued_damage(w_x.damage_queue@, v)
                    + crate::melee::melee_damage_to_upto(
                    w_x,
                    v,
                    w_x.entities.spec_capacity() as int,
                ))
            &&& w_m.melee_intents@ == Map::<int, crate::components::WantsToMelee>::empty()
            &&& w_d.damage_queue@ == Map::<int, crate::components::SufferDamage>::empty()
            &&& (forall|i: int|
                0 <= i < w_m.entities.spec_capacity() && w_m.combat_stats@.contains_key(i)
                    && w_m.damage_queue@.contains_key(i) ==> #[trigger] w_d.combat_stats@[i]
                    == (crate::components::CombatStats {
                    hp: crate::arith::clamp_i32(
                        w_m.combat_stats@[i].hp - crate::arith::sat_sum(
                            w_m.damage_queue@[i].amount@,
                        ),
                    ) as i32,
                    ..w_m.combat_stats@[i]
                }))
            &&& w_p.positions@ == crate::inventory::pickups_upto(
                w_d,
                w_d.entities.spec_capacity() as int,
            ).0
            &&& w_p.backpacks@ == crate::inventory::pickups_upto(
                w_d,
                w_d.entities.spec_capacity() as int,
            ).1
            &&& w_r.positions@ == crate::inventory::drops_upto(
                w_p,
                w_p.entities.spec_capacity() as int,
            ).0
            &&& w_r.backpacks@ == crate::inventory::drops_upto(
                w_p,
                w_p.entities.spec_capacity() as int,
            ).1
            &&& (exists|tr: Seq<World>|
                {
                    &&& tr.len() == w_r.entities.spec_capacity() + 1
                    &&& tr[0] == w_r
                    &&& (forall|i: int|
                        0 <= i < w_r.entities.spec_capacity()
                            ==> #[trigger] crate::inventory::use_step_rel(
                            tr[i],
                            m_out,
                            tr[i + 1],
                            i,
                        ))
                    &&& w_out == (World {
                        use_intents: w_out.use_intents,
                        ..tr[w_r.entities.spec_capacity() as int]
                    })
                })
        }
}

/// The end-of-tick death sweep ran on `w_mid`: the doomed lose every
/// attribute and their liveness, everyone else is untouched, and a dead
/// player raises the game-over flag instead of being deleted.
pub open spec fn sweep_ok(w_mid: World, w_out: World, over0: bool, over1: bool) -> bool {
    &&& over1 == (over0 || crate::damage::spec_game_over(w_mid))
    &&& (forall|e: crate::entity::Entity|
        w_out.entities.spec_is_live(e) <==> (w_mid.entities.spec_is_live(e)
            && !crate::damage::spec_doomed(w_mid, e.index as int)))
    &&& (forall|i: int|
        !crate::damage::spec_doomed(w_mid, i) ==> #[trigger] crate::damage::attrs_unchanged_at(
            w_mid,
            w_out,
            i,
        ))
    &&& (forall|i: int|
        crate::damage::spec_doomed(w_mid, i) ==> #[trigger] crate::damage::attrs_none_at(
            w_out,
            i,
        ))
}

impl State {
    /// The pieces of the state agree with one another.
    pub open spec fn wf(self) -> bool {
        &&& self.world.wf()
        &&& self.map.wf()
        &&& self.player_entity.index < u32::MAX
    }

    /// Start a new game from a seed: generate the first level, spawn the
    /// player at the first room's centroid and populate the other rooms,
    /// and open at the main menu.
    pub fn new_game(seed: u64) -> (r: State)
        ensures
            r.wf(),
            gen_inv(r.map),
            r.map.depth == 1,
            r.runstate == (RunState::MainMenu { menu_selection: MainMenuSelection::NewGame }),
            !r.game_over,
            r.world.entities.spec_is_live(r.player_entity),
            r.world.players@.contains_key(r.player_entity.index as int),
            r.world.positions@.contains_key(r.player_entity.index as int),
            r.world.positions@[r.player_entity.index as int] == r.player_pos,
            (r.player_pos.x as int, r.player_pos.y as int) == r.map.rooms@[0].spec_center(),
    {
        let mut rng = Rng::seeded(seed);
        let map = GameMap::new_map_rooms_and_corridors(&mut rng, 1);
        let mut world = World::new();
        let first = map.rooms[0];
        let (player_x, player_y) = first.center();
        proof {
            crate::mapgen::lemma_center_in_interior(first);
        }
        let player_entity = spawn_player(&mut world, player_x, player_y);

        let mut room_i: usize = 1;
        while room_i < map.rooms.len()
            invariant
                world.wf(),
                map.wf(),
                gen_inv(map),
                1 <= room_i,
                world.entities.spec_is_live(player_entity),
                world.players@.contains_key(player_entity.index as int),
                world.positions@.contains_key(player_entity.index as int),
                world.positions@[player_entity.index as int] == (Position {
                    x: player_x,
                    y: player_y,
                }),
            decreases map.rooms@.len() - room_i,
        {
            let room = map.rooms[room_i];
            let ghost w_pre = world;
            spawn_room(&mut world, &mut rng, &room, 1);
            proof {
                world.entities.lemma_live_index(player_entity);
                w_pre.entities.lemma_live_entity_at(player_entity);
                assert(crate::damage::attrs_unchanged_at(
                    w_pre,
                    world,
                    player_entity.index as int,
                ));
            }
            room_i = room_i + 1;
        }

        let mut log = GameLog::new();
        log.log(String::from_str("Welcome to the dungeon."));
        proof {
            world.entities.lemma_live_index(player_entity);
        }
        State {
            world,
            map,
            runstate: RunState::MainMenu { menu_selection: MainMenuSelection::NewGame },
            player_entity,
            player_pos: Position { x: player_x, y: player_y },
            log,
            rng,
            game_over: false,
        }
    }

    /// Run the fixed per-tick pipeline once, in its load-bearing order:
    /// visibility, actor decisions, map indexing, melee resolution, damage
    /// application, then item pickup, drop and use. Every single-turn
    /// intent has been consumed afterwards.
    pub fn run_systems(&mut self)
        requires
            old(self).wf(),
        ensures
            final(self).wf(),
            final(self).player_entity == old(self).player_entity,
            final(self).runstate == old(self).runstate,
            final(self).game_over == old(self).game_over,
            final(self).map.depth == old(self).map.depth,
            final(self).world.entities.spec_capacity() == old(
                self,
            ).world.entities.spec_capacity(),
            forall|e: crate::entity::Entity|
                final(self).world.entities.spec_is_live(e) ==> old(
                    self,
                ).world.entities.spec_is_live(e),
            forall|k: int|
                0 <= k < old(self).log.entries@.len() ==> final(self).log.entries@[k] == old(
                    self,
                ).log.entries@[k],
            final(self).log.entries@.len() >= old(self).log.entries@.len(),
            final(self).world.melee_intents@ == Map::<int, crate::components::WantsToMelee>::empty(),
            final(self).world.pickup_intents@ == Map::<
                int,
                crate::components::WantsToPickupItem,
            >::empty(),
            final(self).world.drop_intents@ == Map::<int, WantsToDropItem>::empty(),
            final(self).world.use_intents@ == Map::<int, WantsToUseItem>::empty(),
            pipeline_ok(*old(self), final(self).world, final(self).map),
    {
        VisibilitySystem::run(&mut self.world, &mut self.map, self.player_entity);
        let ghost w_v = self.world;
        let ghost m_v = self.map;
        MonsterAI::run(
            &mut self.world,
            &mut self.map,
            self.runstate,
            self.player_pos,
            self.player_entity,
        );
        let ghost w_a = self.world;
        let ghost m_a = self.map;
        MapIndexingSystem::run(&self.world, &mut self.map);
        let ghost m_x = self.map;
        let ghost w_x = self.world;
        MeleeCombatSystem::run(&mut self.world, &mut self.log);
        let ghost w_m = self.world;
        DamageSystem::run(&mut self.world);
        let ghost w_d = self.world;
        ItemCollectionSystem::run(&mut self.world, &mut self.log, self.player_entity);
        let ghost w_p = self.world;
        ItemDropSystem::run(&mut self.world, &mut self.log, self.player_entity);
        let ghost w_r = self.world;
        ItemUseSystem::run(&mut self.world, &self.map, &mut self.log, self.player_entity);
        proof {
            // hand the intermediate states to the two stage-chain clauses
            let ghost probe1 = (w_v.viewsheds@, m_v.blocked@, w_a.positions@, m_a.blocked@, m_x.blocked@);
            let ghost probe2 = (
                w_x.damage_queue@,
                w_m.damage_queue@,
                w_d.damage_queue@,
                w_p.positions@,
                w_r.positions@,
            );
            assert(crate::map_indexer::indexed(w_a, m_x));
            assert(w_m.melee_intents@ == Map::<int, crate::components::WantsToMelee>::empty());
            assert(w_d.damage_queue@ == Map::<int, crate::components::SufferDamage>::empty());
        }
    }

    /// Advance to the next dungeon level: everything except the player and
    /// the items in the player's backpack is deleted, a fresh map one level
    /// deeper is generated and populated, the player moves to its first
    /// room's centroid with a stale viewshed, and a player below half
    /// health is healed up to half.
    pub fn goto_next_level(&mut self)
        requires
            old(self).wf(),
            // headroom so the depth-scaled spawn weights and dice stay in i32
            1 <= old(self).map.depth < 1000000,
            old(self).world.entities.spec_is_live(old(self).player_entity),
        ensures
            final(self).wf(),
            gen_inv(final(self).map),
            final(self).map.depth == old(self).map.depth + 1,
            final(self).runstate == old(self).runstate,
            final(self).game_over == old(self).game_over,
            final(self).world.entities.spec_is_live(final(self).player_entity),
            final(self).player_entity == old(self).player_entity,
            (final(self).player_pos.x as int, final(self).player_pos.y as int) == final(self).map.rooms@[0].spec_center(),
            final(self).world.positions@.contains_key(final(self).player_entity.index as int)
                ==> final(self).world.positions@[final(self).player_entity.index as int] == final(self).player_pos,
            // the heal-to-half rule
            old(self).world.combat_stats@.contains_key(old(self).player_entity.index as int)
                && old(self).world.combat_stats@[old(self).player_entity.index as int].max_hp >= 0
                ==> ({
                let pi = old(self).player_entity.index as int;
                let stats = old(self).world.combat_stats@[pi];
                &&& final(self).world.combat_stats@.contains_key(pi)
                &&& final(self).world.combat_stats@[pi].hp as int == (if stats.hp >= stats.max_hp
                    / 2 {
                    stats.hp as int
                } else {
                    stats.max_hp as int / 2
                })
                &&& final(self).world.combat_stats@[pi].max_hp == stats.max_hp
            }),
            // everything else is deleted; the player and its backpack survive
            forall|e: Entity|
                #[trigger] old(self).world.entities.spec_is_live(e) && !survives_level_change(
                    old(self).world,
                    old(self).player_entity,
                    e,
                ) ==> !final(self).world.entities.spec_is_live(e),
            forall|e: Entity|
                #[trigger] old(self).world.entities.spec_is_live(e) && survives_level_change(
                    old(self).world,
                    old(self).player_entity,
                    e,
                ) ==> final(self).world.entities.spec_is_live(e),
            crate::damage::key_eq(
                final(self).world.players@,
                old(self).world.players@,
                old(self).player_entity.index as int,
            ),
            // the player must re-scout the new level
            old(self).world.viewsheds@.contains_key(old(self).player_entity.index as int) ==> {
                &&& final(self).world.viewsheds@.contains_key(
                    old(self).player_entity.index as int,
                )
                &&& final(self).world.viewsheds@[old(self).player_entity.index as int].dirty
            },
    {
        let pi = self.player_entity.index as usize;

        // Delete everything that is neither the player nor carried by the player.
        let cap = self.world.entities.capacity();
        let mut doomed: Vec<Entity> = Vec::new();
        let mut i: usize = 0;
        while i < cap
            invariant
                self.world.wf(),
                i <= cap,
                cap == self.world.entities.spec_capacity(),
                self.player_entity == old(self).player_entity,
                self.map == old(self).map,
                *self == (State { world: self.world, ..*old(self) }),
                pi == self.player_entity.index as usize,
                self.world == old(self).world,
                forall|k: int|
                    0 <= k < doomed@.len() ==> self.world.entities.spec_is_live(
                        #[trigger] doomed@[k],
                    ) && doomed@[k] != self.player_entity && doomed@[k].index < i,
                forall|k1: int, k2: int|
                    0 <= k1 < k2 < doomed@.len() ==> doomed@[k1] != doomed@[k2],
                forall|k: int|
                    0 <= k < doomed@.len() ==> !survives_level_change(
                        old(self).world,
                        old(self).player_entity,
                        #[trigger] doomed@[k],
                    ),
                forall|e: Entity|
                    #[trigger] self.world.entities.spec_is_live(e) && e.index < i
                        && !survives_level_change(old(self).world, old(self).player_entity, e)
                        ==> exists|j: int| 0 <= j < doomed@.len() && (#[trigger] doomed@[j]) == e,
            decreases cap - i,
        {
            let ghost doomed_pre = doomed@;
            if let Some(e) = self.world.entities.live_at(i) {
                let mut keep = false;
                if e == self.player_entity {
                    keep = true;
                }
                if let Some(bp) = self.world.backpacks.get(i) {
                    if bp.owner == self.player_entity {
                        keep = true;
                    }
                }
                if !keep {
                    proof {
                        assert forall|k: int| 0 <= k < doomed@.len() implies #[trigger] doomed@[k]
                            != e by {
                            assert(doomed@[k].index < i && e.index == i);
                        }
                        assert(!survives_level_change(
                            old(self).world,
                            old(self).player_entity,
                            e,
                        ));
                    }
                    doomed.push(e);
                }
                proof {
                    if keep {
                        assert(survives_level_change(old(self).world, old(self).player_entity, e));
                    }
                    assert forall|o: Entity|
                        #[trigger] self.world.entities.spec_is_live(o) && o.index < i + 1
                            && !survives_level_change(
                            old(self).world,
                            old(self).player_entity,
                            o,
                        ) implies exists|j: int|
                        0 <= j < doomed@.len() && (#[trigger] doomed@[j]) == o by {
                        if o.index < i {
                            let j = choose|j: int|
                                0 <= j < doomed_pre.len() && (#[trigger] doomed_pre[j]) == o;
                            assert(doomed@[j] == o);
                        } else {
                            self.world.entities.lemma_live_unique(o, e);
                            assert(doomed@[doomed@.len() - 1] == o);
                        }
                    }
                }
            } else {
                proof {
                    assert forall|o: Entity|
                        #[trigger] self.world.entities.spec_is_live(o) && o.index < i + 1
                            && !survives_level_change(
                            old(self).world,
                            old(self).player_entity,
                            o,
                        ) implies exists|j: int|
                        0 <= j < doomed@.len() && (#[trigger] doomed@[j]) == o by {
                        assert(o.index != i);
                        let j = choose|j: int|
                            0 <= j < doomed_pre.len() && (#[trigger] doomed_pre[j]) == o;
                        assert(doomed@[j] == o);
                    }
                }
            }
            i = i + 1;
        }
        proof {
            assert forall|e: Entity|
                #[trigger] old(self).world.entities.spec_is_live(e) && !survives_level_change(
                    old(self).world,
                    old(self).player_entity,
                    e,
                ) implies exists|j: int|
                0 <= j < doomed@.len() && (#[trigger] doomed@[j]) == e by {
                old(self).world.entities.lemma_live_index(e);
            }
        }
        let mut d: usize = 0;
        while d < doomed.len()
            invariant
                self.world.wf(),
                d <= doomed@.len(),
                self.player_entity == old(self).player_entity,
                self.map == old(self).map,
                *self == (State { world: self.world, log: self.log, ..*old(self) }),
                crate::damage::key_eq(
                    self.world.combat_stats@,
                    old(self).world.combat_stats@,
                    pi as int,
                ),
                pi == self.player_entity.index as usize,
                self.world.entities.spec_capacity() == cap,
                crate::damage::key_eq(
                    self.world.viewsheds@,
                    old(self).world.viewsheds@,
                    pi as int,
                ),
                crate::damage::key_eq(
                    self.world.players@,
                    old(self).world.players@,
                    pi as int,
                ),
                forall|k: int|
                    d <= k < doomed@.len() ==> self.world.entities.spec_is_live(
                        #[trigger] doomed@[k],
                    ),
                forall|k: int|
                    0 <= k < d ==> self.world.entities.spec_retired(#[trigger] doomed@[k]),
                forall|e: Entity| #[trigger]
                    self.world.entities.spec_is_live(e) ==> old(
                        self,
                    ).world.entities.spec_is_live(e),
                forall|e: Entity|
                    #[trigger] old(self).world.entities.spec_is_live(e) && !(exists|j: int|
                        0 <= j < d && (#[trigger] doomed@[j]) == e)
                        ==> self.world.entities.spec_is_live(e),
                forall|k1: int, k2: int|
                    0 <= k1 < k2 < doomed@.len() ==> doomed@[k1] != doomed@[k2],
                forall|k: int| 0 <= k < doomed@.len() ==> #[trigger] doomed@[k]
                    != self.player_entity,
                self.world.entities.spec_is_live(self.player_entity),
            decreases doomed@.len() - d,
        {
            let victim = doomed[d];
            let ghost w_step = self.world;
            proof {
                if victim.index == self.player_entity.index {
                    self.world.entities.lemma_live_unique(victim, self.player_entity);
                }
                assert(victim.index != self.player_entity.index);
            }
            self.world.delete_entity(victim);
            proof {
                assert forall|k: int| 0 <= k < d + 1 implies self.world.entities.spec_retired(
                    #[trigger] doomed@[k],
                ) by {
                    if k < d {
                        assert(w_step.entities.spec_retired(doomed@[k]));
                    } else {
                        assert(doomed@[k] == victim);
                    }
                }
                assert forall|e: Entity|
                    #[trigger] old(self).world.entities.spec_is_live(e) && !(exists|j: int|
                        0 <= j < d + 1 && (#[trigger] doomed@[j]) == e) implies self
                    .world.entities.spec_is_live(e) by {
                    assert(!(exists|j: int| 0 <= j < d && (#[trigger] doomed@[j]) == e));
                    assert(w_step.entities.spec_is_live(e));
                    assert(e != doomed@[d as int]);
                }
            }
            d = d + 1;
        }

        // Build the next level and place monsters and items in it.
        let depth = self.map.depth;
        self.map = GameMap::new_map_rooms_and_corridors(&mut self.rng, depth + 1);
        let mut room_i: usize = 1;
        while room_i < self.map.rooms.len()
            invariant
                self.world.wf(),
                self.map.wf(),
                gen_inv(self.map),
                1 <= room_i,
                1 <= self.map.rooms@.len(),
                1 <= depth < 1000000,
                self.player_entity == old(self).player_entity,
                self.map.depth == old(self).map.depth + 1,
                *self == (State {
                    world: self.world,
                    map: self.map,
                    rng: self.rng,
                    log: self.log,
                    ..*old(self)
                }),
                pi == self.player_entity.index as usize,
                self.world.entities.spec_is_live(self.player_entity),
                crate::damage::key_eq(
                    self.world.combat_stats@,
                    old(self).world.combat_stats@,
                    pi as int,
                ),
                crate::damage::key_eq(
                    self.world.viewsheds@,
                    old(self).world.viewsheds@,
                    pi as int,
                ),
                crate::damage::key_eq(
                    self.world.players@,
                    old(self).world.players@,
                    pi as int,
                ),
                forall|k: int|
                    0 <= k < doomed@.len() ==> self.world.entities.spec_retired(
                        #[trigger] doomed@[k],
                    ),
                forall|e: Entity|
                    #[trigger] old(self).world.entities.spec_is_live(e) && !(exists|j: int|
                        0 <= j < doomed@.len() && (#[trigger] doomed@[j]) == e)
                        ==> self.world.entities.spec_is_live(e),
            decreases self.map.rooms@.len() - room_i,
        {
            let room = self.map.rooms[room_i];
            let ghost w_pre = self.world;
            spawn_room(&mut self.world, &mut self.rng, &room, depth + 1);
            proof {
                w_pre.entities.lemma_live_entity_at(self.player_entity);
                assert(crate::damage::attrs_unchanged_at(w_pre, self.world, pi as int));
                assert forall|k: int|
                    0 <= k < doomed@.len() implies self.world.entities.spec_retired(
                    #[trigger] doomed@[k],
                ) by {
                    assert(w_pre.entities.spec_retired(doomed@[k]));
                }
                assert forall|e: Entity|
                    #[trigger] old(self).world.entities.spec_is_live(e) && !(exists|j: int|
                        0 <= j < doomed@.len() && (#[trigger] doomed@[j]) == e) implies self
                    .world.entities.spec_is_live(e) by {
                    assert(w_pre.entities.spec_is_live(e));
                }
            }
            room_i = room_i + 1;
        }

        // Move the player to the new level's first room.
        let first = self.map.rooms[0];
        let (px, py) = first.center();
        proof {
            crate::mapgen::lemma_center_in_interior(first);
        }
        self.player_pos = Position { x: px, y: py };
        if self.world.positions.contains(pi) {
            self.world.positions.insert(pi, Position { x: px, y: py });
        }
        match self.world.viewsheds.take(pi) {
            Some(mut vs) => {
                vs.dirty = true;
                self.world.viewsheds.insert(pi, vs);
            },
            None => {},
        }

        // Give the player a breather on the way down.
        match self.world.combat_stats.take(pi) {
            Some(stats) => {
                if stats.hp >= stats.max_hp / 2 {
                    self.log.log(String::from_str("You descend to the next level."));
                    self.world.combat_stats.insert(pi, stats);
                } else {
                    self.log.log(
                        String::from_str(
                            "You descend to the next level, and take a moment to heal.",
                        ),
                    );
                    let half = stats.max_hp / 2;
                    self.world.combat_stats.insert(
                        pi,
                        crate::components::CombatStats { hp: half, ..stats },
                    );
                }
            },
            None => {},
        }

        proof {
            assert forall|e: Entity|
                #[trigger] old(self).world.entities.spec_is_live(e) && !survives_level_change(
                    old(self).world,
                    old(self).player_entity,
                    e,
                ) implies !self.world.entities.spec_is_live(e) by {
                let j = choose|j: int| 0 <= j < doomed@.len() && (#[trigger] doomed@[j]) == e;
                assert(self.world.entities.spec_retired(e));
                self.world.entities.lemma_retired_not_live(e);
            }
            assert forall|e: Entity|
                #[trigger] old(self).world.entities.spec_is_live(e) && survives_level_change(
                    old(self).world,
                    old(self).player_entity,
                    e,
                ) implies self.world.entities.spec_is_live(e) by {
                if exists|j: int| 0 <= j < doomed@.len() && (#[trigger] doomed@[j]) == e {
                    let j = choose|j: int| 0 <= j < doomed@.len() && (#[trigger] doomed@[j]) == e;
                    assert(!survives_level_change(
                        old(self).world,
                        old(self).player_entity,
                        doomed@[j],
                    ));
                    assert(false);
                }
            }
        }
    }

    /// Advance the game one tick. Pipeline states run the full system
    /// pipeline; dialog and menu states fold the external response into the
    /// next state, writing the player's intents where a selection was
    /// confirmed. The dead are swept at the end of every tick, and a dead
    /// player raises the game-over condition instead of being deleted.
    pub fn tick(&mut self, response: ExternalResponse) -> (r: EngineRequest)
        requires
            old(self).wf(),
            // headroom so the depth-scaled spawn weights and dice stay in i32
            1 <= old(self).map.depth < 1000000,
            old(self).runstate == RunState::NextLevel ==> old(self).world.entities.spec_is_live(
                old(self).player_entity,
            ),
        ensures
            final(self).wf(),
            final(self).runstate == spec_next_state(*old(self), response),
            r == spec_request(*old(self), response),
            old(self).game_over ==> final(self).game_over,
            // the pipeline phases consume every single-turn intent
            (old(self).runstate == RunState::PreRun || old(self).runstate == RunState::PlayerTurn
                || old(self).runstate == RunState::MonsterTurn) ==> {
                &&& final(self).world.melee_intents@ == Map::<
                    int,
                    crate::components::WantsToMelee,
                >::empty()
                &&& final(self).world.pickup_intents@ == Map::<
                    int,
                    crate::components::WantsToPickupItem,
                >::empty()
                &&& final(self).world.drop_intents@ == Map::<int, WantsToDropItem>::empty()
                &&& final(self).world.use_intents@ == Map::<int, WantsToUseItem>::empty()
            },
            // a confirmed dialog selection writes the player's intent
            ({
                let pi = old(self).player_entity.index as int;
                old(self).world.players@.contains_key(pi) ==> match (
                    old(self).runstate,
                    response,
                ) {
                    (
                        RunState::ShowDropItem,
                        ExternalResponse::ItemChoice(ItemMenuResult::Selected(item)),
                    ) => final(self).world.drop_intents@.contains_key(pi) && final(self).world.drop_intents@[pi] == (WantsToDropItem { item }),
                    (
                        RunState::ShowTargeting { range, item },
                        ExternalResponse::TargetChoice(ItemMenuResult::Selected(t)),
                    ) => final(self).world.use_intents@.contains_key(pi) && final(self).world.use_intents@[pi] == (WantsToUseItem { item, target: Some(t) }),
                    (
                        RunState::ShowInventory,
                        ExternalResponse::ItemChoice(ItemMenuResult::Selected(item)),
                    ) => !old(self).world.ranged_items@.contains_key(item.index as int) ==> final(self).world.use_intents@.contains_key(pi) && final(self).world.use_intents@[pi]
                        == (WantsToUseItem { item, target: None }),
                    _ => true,
                }
            }),
            // the death sweep ends every tick: the dead are gone, survivors
            // untouched, and a dead player raises game over instead
            exists|w_mid: World|
                #![trigger w_mid.combat_stats@]
                sweep_ok(w_mid, final(self).world, old(self).game_over, final(self).game_over),
            // pipeline states run the stages once, in their fixed order,
            // and the sweep acts on exactly what the pipeline left
            (old(self).runstate == RunState::PreRun || old(self).runstate == RunState::PlayerTurn
                || old(self).runstate == RunState::MonsterTurn) ==> exists|w_run: World|
                #![trigger w_run.combat_stats@]
                {
                    &&& pipeline_ok(*old(self), w_run, final(self).map)
                    &&& sweep_ok(
                        w_run,
                        final(self).world,
                        old(self).game_over,
                        final(self).game_over,
                    )
                },
            // descending carries the level change through the tick
            old(self).runstate == RunState::NextLevel ==> {
                &&& final(self).map.depth == old(self).map.depth + 1
                &&& gen_inv(final(self).map)
                &&& (forall|e: crate::entity::Entity|
                    #[trigger] old(self).world.entities.spec_is_live(e)
                        && !survives_level_change(
                        old(self).world,
                        old(self).player_entity,
                        e,
                    ) ==> !final(self).world.entities.spec_is_live(e))
                &&& (old(self).world.viewsheds@.contains_key(
                    old(self).player_entity.index as int,
                ) && old(self).world.players@.contains_key(
                    old(self).player_entity.index as int,
                ) ==> {
                    &&& final(self).world.viewsheds@.contains_key(
                        old(self).player_entity.index as int,
                    )
                    &&& final(self).world.viewsheds@[old(self).player_entity.index as int].dirty
                })
            },
    {
        let mut request = EngineRequest::Nothing;
        let prev = self.runstate;
        let mut new_runstate = prev;

        match prev {
            RunState::MainMenu { menu_selection } => {
                match response {
                    ExternalResponse::Menu(MainMenuResult::NoSelection(sel)) => {
                        new_runstate = RunState::MainMenu { menu_selection: sel };
                    },
                    ExternalResponse::Menu(MainMenuResult::Selected(sel)) => match sel {
                        MainMenuSelection::NewGame => {
                            new_runstate = RunState::PreRun;
                        },
                        MainMenuSelection::LoadGame => {
                            request = EngineRequest::LoadGame;
                            new_runstate = RunState::AwaitingInput;
                        },
                        MainMenuSelection::Quit => {
                            request = EngineRequest::Quit;
                        },
                    },
                    _ => {},
                }
            },
            RunState::SaveGame => {
                request = EngineRequest::SaveGame;
                new_runstate = RunState::MainMenu {
                    menu_selection: MainMenuSelection::LoadGame,
                };
            },
            RunState::NextLevel => {
                self.goto_next_level();
                new_runstate = RunState::PreRun;
            },
            RunState::PreRun => {
                self.run_systems();
                new_runstate = RunState::AwaitingInput;
            },
            RunState::AwaitingInput => {
                match response {
                    ExternalResponse::Command(cmd) => {
                        let mut pos = self.player_pos;
                        new_runstate = player_input(
                            &mut self.world,
                            &self.map,
                            &mut self.log,
                            self.player_entity,
                            &mut pos,
                            cmd,
                        );
                        self.player_pos = pos;
                    },
                    _ => {},
                }
            },
            RunState::PlayerTurn => {
                self.run_systems();
                new_runstate = RunState::MonsterTurn;
            },
            RunState::MonsterTurn => {
                self.run_systems();
                new_runstate = RunState::AwaitingInput;
            },
            RunState::ShowInventory => {
                match response {
                    ExternalResponse::ItemChoice(ItemMenuResult::Cancel) => {
                        new_runstate = RunState::AwaitingInput;
                    },
                    ExternalResponse::ItemChoice(ItemMenuResult::Selected(item)) => {
                        let ranged = {
                            match self.world.ranged_items.get(item.index as usize) {
                                Some(rg) => Some(rg.range),
                                None => None,
                            }
                        };
                        match ranged {
                            Some(range) => {
                                new_runstate = RunState::ShowTargeting { range, item };
                            },
                            None => {
                                self.world.use_intents.insert(
                                    self.player_entity.index as usize,
                                    WantsToUseItem { item, target: None },
                                );
                                new_runstate = RunState::PlayerTurn;
                            },
                        }
                    },
                    _ => {},
                }
            },
            RunState::ShowDropItem => {
                match response {
                    ExternalResponse::ItemChoice(ItemMenuResult::Cancel) => {
                        new_runstate = RunState::AwaitingInput;
                    },
                    ExternalResponse::ItemChoice(ItemMenuResult::Selected(item)) => {
                        self.world.drop_intents.insert(
                            self.player_entity.index as usize,
                            WantsToDropItem { item },
                        );
                        new_runstate = RunState::PlayerTurn;
                    },
                    _ => {},
                }
            },
            RunState::ShowTargeting { range, item } => {
                match response {
                    ExternalResponse::TargetChoice(ItemMenuResult::Cancel) => {
                        new_runstate = RunState::AwaitingInput;
                    },
                    ExternalResponse::TargetChoice(ItemMenuResult::Selected(target)) => {
                        self.world.use_intents.insert(
                            self.player_entity.index as usize,
                            WantsToUseItem { item, target: Some(target) },
                        );
                        new_runstate = RunState::PlayerTurn;
                    },
                    _ => {},
                }
            },
        }

        self.runstate = new_runstate;

        // End-of-tick death sweep; a dead player means game over.
        let ghost w_mid = self.world;
        let over = delete_the_dead(&mut self.world, &mut self.log);
        if over {
            self.game_over = true;
        }
        proof {
            let ghost probe = w_mid.combat_stats@;
            assert(final(self).game_over == (old(self).game_over || crate::damage::spec_game_over(w_mid)));
            assert(sweep_ok(w_mid, self.world, old(self).game_over, self.game_over));
            if old(self).runstate == RunState::PreRun || old(self).runstate
                == RunState::PlayerTurn || old(self).runstate == RunState::MonsterTurn {
                assert(pipeline_ok(*old(self), w_mid, self.map));
            }
            if old(self).runstate == RunState::NextLevel {
                assert forall|e: crate::entity::Entity|
                    #[trigger] old(self).world.entities.spec_is_live(e)
                        && !survives_level_change(
                        old(self).world,
                        old(self).player_entity,
                        e,
                    ) implies !self.world.entities.spec_is_live(e) by {
                    assert(!w_mid.entities.spec_is_live(e));
                }
                let pi2 = old(self).player_entity.index as int;
                if old(self).world.viewsheds@.contains_key(pi2) && old(
                    self,
                ).world.players@.contains_key(pi2) {
                    assert(w_mid.players@.contains_key(pi2));
                    assert(!crate::damage::spec_doomed(w_mid, pi2));
                    assert(crate::damage::attrs_unchanged_at(w_mid, self.world, pi2));
                }
            }
            if old(self).runstate == RunState::PreRun || old(self).runstate
                == RunState::PlayerTurn || old(self).runstate == RunState::MonsterTurn {
                assert(final(self).world.melee_intents@ =~= Map::<
                    int,
                    crate::components::WantsToMelee,
                >::empty()) by {
                    assert forall|k: int|
                        !final(self).world.melee_intents@.contains_key(k) by {
                        if crate::damage::spec_doomed(w_mid, k) {
                            assert(crate::damage::attrs_none_at(final(self).world, k));
                        } else {
                            assert(crate::damage::attrs_unchanged_at(w_mid, final(self).world, k));
                        }
                    }
                }
                assert(final(self).world.pickup_intents@ =~= Map::<
                    int,
                    crate::components::WantsToPickupItem,
                >::empty()) by {
                    assert forall|k: int|
                        !final(self).world.pickup_intents@.contains_key(k) by {
                        if crate::damage::spec_doomed(w_mid, k) {
                            assert(crate::damage::attrs_none_at(final(self).world, k));
                        } else {
                            assert(crate::damage::attrs_unchanged_at(w_mid, final(self).world, k));
                        }
                    }
                }
                assert(final(self).world.drop_intents@ =~= Map::<int, WantsToDropItem>::empty())
                    by {
                    assert forall|k: int|
                        !final(self).world.drop_intents@.contains_key(k) by {
                        if crate::damage::spec_doomed(w_mid, k) {
                            assert(crate::damage::attrs_none_at(final(self).world, k));
                        } else {
                            assert(crate::damage::attrs_unchanged_at(w_mid, final(self).world, k));
                        }
                    }
                }
                assert(final(self).world.use_intents@ =~= Map::<int, WantsToUseItem>::empty())
                    by {
                    assert forall|k: int|
                        !final(self).world.use_intents@.contains_key(k) by {
                        if crate::damage::spec_doomed(w_mid, k) {
                            assert(crate::damage::attrs_none_at(final(self).world, k));
                        } else {
                            assert(crate::damage::attrs_unchanged_at(w_mid, final(self).world, k));
                        }
                    }
                }
            }
            let pi = old(self).player_entity.index as int;
            if old(self).world.players@.contains_key(pi) {
                assert(!crate::damage::spec_doomed(w_mid, pi) ==> crate::damage::attrs_unchanged_at(
                    w_mid,
                    final(self).world,
                    pi,
                ));
            }
        }
        request
    }
}

} // verus!
