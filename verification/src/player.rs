//! Player actions: movement, bump-attacks, and picking items up.

use vstd::prelude::*;

use crate::components::{Position, WantsToMelee, WantsToPickupItem};
use crate::entity::Entity;
use crate::gamelog::GameLog;
use crate::map::{tile_idx, GameMap};
use crate::runstate::RunState;
use crate::world::World;
use vstd::string::StringExecFns;

verus! {

/// The first entity in `list` (a tile's occupants) that has combat
/// statistics, scanning from the front.
pub open spec fn first_combat_target(w: World, list: Seq<Entity>) -> Option<Entity>
    decreases list.len(),
{
    if list.len() == 0 {
        None
    } else if w.combat_stats@.contains_key(list.first().index as int) {
        Some(list.first())
    } else {
        first_combat_target(w, list.drop_first())
    }
}

/// What trying to move the player by a delta does: bumping into a fighter
/// queues a melee attack instead; walls, blocked tiles and the map border
/// stop the move; a successful move updates the position component and the
/// tracked player position and marks the player's viewshed stale.
pub open spec fn move_outcome(
    w0: World,
    w1: World,
    m: GameMap,
    pe: Entity,
    p0: Position,
    p1: Position,
    delta_x: int,
    delta_y: int,
) -> bool {
    let pi = pe.index as int;
    if w0.positions@.contains_key(pi) && w0.viewsheds@.contains_key(pi) {
        let dest = (w0.positions@[pi].x + delta_x, w0.positions@[pi].y + delta_y);
        if !(1 <= dest.0 <= m.width - 1 && 1 <= dest.1 <= m.height - 1) {
            w1 == w0 && p1 == p0
        } else if first_combat_target(
            w0,
            m.tile_content@[tile_idx(m.width as int, dest.0, dest.1)]@,
        ) is Some {
            &&& w1.melee_intents@ == w0.melee_intents@.insert(
                pi,
                WantsToMelee {
                    target: first_combat_target(
                        w0,
                        m.tile_content@[tile_idx(m.width as int, dest.0, dest.1)]@,
                    )->0,
                },
            )
            &&& w1.positions@ == w0.positions@
            &&& w1.viewsheds@ == w0.viewsheds@
            &&& w1 == (World { melee_intents: w1.melee_intents, ..w0 })
            &&& p1 == p0
        } else if !m.blocked@[tile_idx(m.width as int, dest.0, dest.1)] {
            &&& w1.positions@ == w0.positions@.insert(
                pi,
                Position { x: dest.0 as i32, y: dest.1 as i32 },
            )
            &&& w1.viewsheds@.dom() == w0.viewsheds@.dom()
            &&& w1.viewsheds@[pi].dirty
            &&& w1.viewsheds@[pi].range == w0.viewsheds@[pi].range
            &&& w1.viewsheds@[pi].visible_tiles == w0.viewsheds@[pi].visible_tiles
            &&& forall|k: int|
                k != pi && w0.viewsheds@.contains_key(k) ==> w1.viewsheds@[k] == w0.viewsheds@[k]
            &&& w1.melee_intents@ == w0.melee_intents@
            &&& w1 == (World { positions: w1.positions, viewsheds: w1.viewsheds, ..w0 })
            &&& p1 == (Position { x: dest.0 as i32, y: dest.1 as i32 })
        } else {
            w1 == w0 && p1 == p0
        }
    } else {
        w1 == w0 && p1 == p0
    }
}

/// What letting the player pick up the item underfoot does: a pickup
/// intent is queued for the last item lying on the tile, or a log line
/// notes that nothing is there.
pub open spec fn get_item_outcome(
    w0: World,
    w1: World,
    log0: Seq<String>,
    log1: Seq<String>,
    pe: Entity,
    pos: Position,
) -> bool {
    &&& w1 == (World { pickup_intents: w1.pickup_intents, ..w0 })
    &&& match last_item_at(w0, pos, w0.entities.spec_capacity() as int) {
        Some(item) => {
            &&& w1.pickup_intents@ == w0.pickup_intents@.insert(
                pe.index as int,
                WantsToPickupItem { collected_by: pe, item },
            )
            &&& log1 == log0
        },
        None => {
            &&& w1.pickup_intents@ == w0.pickup_intents@
            &&& log1.len() == log0.len() + 1
        },
    }
}

/// Try to move the player by a delta; see [`move_outcome`].
pub fn try_move_player(
    delta_x: i32,
    delta_y: i32,
    world: &mut World,
    map: &GameMap,
    player_entity: Entity,
    player_pos: &mut Position,
)
    requires
        old(world).wf(),
        map.wf(),
        -1 <= delta_x <= 1,
        -1 <= delta_y <= 1,
        player_entity.index < u32::MAX,
    ensures
        final(world).wf(),
        final(world).entities == old(world).entities,
        *final(world) == (World {
            positions: final(world).positions,
            viewsheds: final(world).viewsheds,
            melee_intents: final(world).melee_intents,
            ..*old(world)
        }),
        move_outcome(
            *old(world),
            *final(world),
            *map,
            player_entity,
            *old(player_pos),
            *final(player_pos),
            delta_x as int,
            delta_y as int,
        ),
{
    let pi = player_entity.index as usize;
    let pos = match world.positions.get(pi) {
        Some(p) => *p,
        None => {
            return ;
        },
    };
    if !world.viewsheds.contains(pi) {
        return ;
    }
    let nx64: i64 = pos.x as i64 + delta_x as i64;
    let ny64: i64 = pos.y as i64 + delta_y as i64;
    if nx64 < 1 || nx64 > map.width as i64 - 1 || ny64 < 1 || ny64 > map.height as i64 - 1 {
        return ;
    }
    let nx: i32 = nx64 as i32;
    let ny: i32 = ny64 as i32;
    let destination_idx = map.xy_idx(nx, ny);

    // Check for something to attack on the destination tile.
    let ghost list = map.tile_content@[destination_idx as int]@;
    let n = map.tile_content[destination_idx].len();
    let mut k: usize = 0;
    proof {
        assert(list.skip(0) =~= list);
    }
    while k < n
        invariant
            world.wf(),
            map.wf(),
            pi == player_entity.index as usize,
            player_entity.index < u32::MAX,
            old(world).positions@.contains_key(pi as int),
            old(world).viewsheds@.contains_key(pi as int),
            -1 <= delta_x <= 1,
            -1 <= delta_y <= 1,
            nx as int == old(world).positions@[pi as int].x + delta_x,
            ny as int == old(world).positions@[pi as int].y + delta_y,
            1 <= nx <= map.width - 1,
            1 <= ny <= map.height - 1,
            destination_idx == tile_idx(map.width as int, nx as int, ny as int),
            destination_idx < map.tile_content@.len(),
            list == map.tile_content@[destination_idx as int]@,
            n == list.len(),
            k <= n,
            *world == *old(world),
            first_combat_target(*world, list) == first_combat_target(*world, list.skip(k as int)),
            forall|j: int|
                0 <= j < k ==> !world.combat_stats@.contains_key(
                    (#[trigger] list[j]).index as int,
                ),
        decreases n - k,
    {
        let potential_target = map.tile_content[destination_idx][k];
        if world.combat_stats.contains(potential_target.index as usize) {
            proof {
                assert(list.skip(k as int).first() == potential_target);
                assert(first_combat_target(*world, list) == Some(potential_target));
                assert(pi < usize::MAX);
            }
            world.melee_intents.insert(pi, WantsToMelee { target: potential_target });
            return ;
        }
        proof {
            assert(list.skip(k as int).drop_first() =~= list.skip(k + 1));
        }
        k = k + 1;
    }
    proof {
        assert(list.skip(n as int) =~= Seq::<Entity>::empty());
        assert(first_combat_target(*world, list) is None);
    }

    // Move if not blocked.
    if !map.blocked[destination_idx] {
        world.positions.insert(pi, Position { x: nx, y: ny });
        match world.viewsheds.take(pi) {
            Some(mut vs) => {
                vs.dirty = true;
                world.viewsheds.insert(pi, vs);
                proof {
                    assert(world.viewsheds@.dom() =~= old(world).viewsheds@.dom());
                }
            },
            None => {},
        }
        player_pos.x = nx;
        player_pos.y = ny;
    }
}

/// The last item lying at `pos`, scanning entities in index order: an
/// entity that is live, tagged as an item, and positioned exactly there.
pub open spec fn last_item_at(w: World, pos: Position, n: int) -> Option<Entity>
    decreases n,
{
    if n <= 0 {
        None
    } else if w.entities.spec_entity_at(n - 1) is Some && w.items@.contains_key(n - 1)
        && w.positions@.contains_key(n - 1) && w.positions@[n - 1] == pos {
        Some(w.entities.spec_entity_at(n - 1)->0)
    } else {
        last_item_at(w, pos, n - 1)
    }
}

/// Let the player pick up the item on their tile: queues a pickup intent
/// for the last such item, or logs that nothing is there.
pub fn get_item(world: &mut World, log: &mut GameLog, player_entity: Entity, player_pos: Position)
    requires
        old(world).wf(),
        player_entity.index < u32::MAX,
    ensures
        final(world).wf(),
        get_item_outcome(
            *old(world),
            *final(world),
            old(log).entries@,
            final(log).entries@,
            player_entity,
            player_pos,
        ),
{
    let cap = world.entities.capacity();
    let mut target_item: Option<Entity> = None;
    let mut i: usize = 0;
    while i < cap
        invariant
            world.wf(),
            cap == world.entities.spec_capacity(),
            i <= cap,
            *world == *old(world),
            target_item == last_item_at(*world, player_pos, i as int),
        decreases cap - i,
    {
        if let Some(e) = world.entities.live_at(i) {
            if world.items.contains(i) {
                if let Some(p) = world.positions.get(i) {
                    if p.x == player_pos.x && p.y == player_pos.y {
                        target_item = Some(e);
                    }
                }
            }
        }
        i = i + 1;
    }
    match target_item {
        None => {
            let msg = String::from_str("There is nothing here to pick up.");
            log.log(msg);
        },
        Some(item) => {
            world.pickup_intents.insert(
                player_entity.index as usize,
                WantsToPickupItem { collected_by: player_entity, item },
            );
        },
    }
}

/// A decoded player action for one frame.
#[derive(PartialEq, Eq, Structural, Copy, Clone, Debug)]
pub enum PlayerCommand {
    /// Move or bump-attack by one step.
    Move { delta_x: i32, delta_y: i32 },
    /// Pick up the item underfoot.
    GetItem,
    /// Open the inventory dialog.
    OpenInventory,
    /// Open the drop-item dialog.
    OpenDropMenu,
}

/// Handle the player's decoded input for one awaiting-input frame: no
/// command keeps waiting; movement and pickup act and end the player's
/// wait; opening the inventory or the drop menu switches to that dialog.
pub fn player_input(
    world: &mut World,
    map: &GameMap,
    log: &mut GameLog,
    player_entity: Entity,
    player_pos: &mut Position,
    command: Option<PlayerCommand>,
) -> (r: RunState)
    requires
        old(world).wf(),
        map.wf(),
        player_entity.index < u32::MAX,
    ensures
        final(world).wf(),
        r == match command {
            None => RunState::AwaitingInput,
            Some(PlayerCommand::OpenInventory) => RunState::ShowInventory,
            Some(PlayerCommand::OpenDropMenu) => RunState::ShowDropItem,
            Some(_) => RunState::PlayerTurn,
        },
        command is None ==> *final(world) == *old(world) && *final(player_pos) == *old(player_pos),
        command == Some(PlayerCommand::OpenInventory) ==> *final(world) == *old(world) && *final(player_pos) == *old(player_pos),
        command == Some(PlayerCommand::OpenDropMenu) ==> *final(world) == *old(world) && *final(player_pos) == *old(player_pos),
        forall|dx: i32, dy: i32|
            command == Some(PlayerCommand::Move { delta_x: dx, delta_y: dy }) && -1 <= dx <= 1
                && -1 <= dy <= 1 ==> #[trigger] move_outcome(
                *old(world),
                *final(world),
                *map,
                player_entity,
                *old(player_pos),
                *final(player_pos),
                dx as int,
                dy as int,
            ),
        command == Some(PlayerCommand::GetItem) ==> get_item_outcome(
            *old(world),
            *final(world),
            old(log).entries@,
            final(log).entries@,
            player_entity,
            *old(player_pos),
        ) && *final(player_pos) == *old(player_pos),
{
    match command {
        None => RunState::AwaitingInput,
        Some(PlayerCommand::Move { delta_x, delta_y }) => {
            let dx = if delta_x < -1 {
                -1
            } else if delta_x > 1 {
                1
            } else {
                delta_x
            };
            let dy = if delta_y < -1 {
                -1
            } else if delta_y > 1 {
                1
            } else {
                delta_y
            };
            try_move_player(dx, dy, world, map, player_entity, player_pos);
            RunState::PlayerTurn
        },
        Some(PlayerCommand::GetItem) => {
            get_item(world, log, player_entity, *player_pos);
            RunState::PlayerTurn
        },
        Some(PlayerCommand::OpenInventory) => RunState::ShowInventory,
        Some(PlayerCommand::OpenDropMenu) => RunState::ShowDropItem,
    }
}

} // verus!
