//! Melee resolution, damage accumulation, the death sweep, and the map
//! indexer's idempotence.

use dungeon_core::{
    delete_the_dead, CombatStats, DamageSystem, Entity, GameLog, GameMap, MapIndexingSystem,
    MeleeCombatSystem, Name, Player, Position, Rng, SufferDamage, WantsToMelee, World,
};

fn named_fighter(world: &mut World, name: &str, stats: CombatStats) -> Entity {
    let e = world.create_entity();
    let i = e.index as usize;
    world.names.insert(i, Name { name: name.to_string() });
    world.combat_stats.insert(i, stats);
    e
}

fn stats(hp: i32, defense: i32, power: i32) -> CombatStats {
    CombatStats { max_hp: hp, hp, defense, power }
}

#[test]
fn nameless_attacker_still_deals_damage() {
    // Names gate only the log line, never the damage: an attacker without
    // a Name, power 5 against defense 0, still queues 5.
    let mut world = World::new();
    let mut log = GameLog::new();
    let atk = world.create_entity();
    world
        .combat_stats
        .insert(atk.index as usize, stats(10, 0, 5));
    let target = world.create_entity();
    world
        .combat_stats
        .insert(target.index as usize, stats(20, 0, 0));
    world
        .melee_intents
        .insert(atk.index as usize, WantsToMelee { target });
    MeleeCombatSystem::run(&mut world, &mut log);
    assert_eq!(
        world.damage_queue.get(target.index as usize).unwrap().amount,
        vec![5]
    );
    assert!(log.entries.is_empty(), "a nameless pair logs nothing");
}

#[test]
fn melee_damage_accumulates_from_many_attackers() {
    // Damage accumulation: three attackers in one tick drop the target's
    // hit points by the exact sum, and the accumulator ends empty.
    let mut world = World::new();
    let mut log = GameLog::new();
    let target = named_fighter(&mut world, "Dummy", stats(30, 1, 0));
    for (name, power) in [("A", 4), ("B", 6), ("C", 9)] {
        let atk = named_fighter(&mut world, name, stats(10, 0, power));
        world
            .melee_intents
            .insert(atk.index as usize, WantsToMelee { target });
    }
    MeleeCombatSystem::run(&mut world, &mut log);
    let queued = world
        .damage_queue
        .get(target.index as usize)
        .expect("damage queued");
    // damages are power - defense: 3, 5, 8
    assert_eq!(queued.amount, vec![3, 5, 8]);

    DamageSystem::run(&mut world);
    let t = world.combat_stats.get(target.index as usize).unwrap();
    assert_eq!(t.hp, 30 - (3 + 5 + 8));
    assert!(world.damage_queue.get(target.index as usize).is_none());
    // intents were consumed
    for i in 0..world.entities.capacity() {
        assert!(world.melee_intents.get(i).is_none());
    }
}

#[test]
fn melee_at_equal_power_and_defense_is_a_logged_miss() {
    // A monster with power 10 attacking a target with defense 10: damage 0,
    // target unchanged, intent consumed, and the miss logged.
    let mut world = World::new();
    let mut log = GameLog::new();
    let target = named_fighter(&mut world, "Knight", stats(25, 10, 2));
    let attacker = named_fighter(&mut world, "Grunter", stats(16, 1, 10));
    world
        .melee_intents
        .insert(attacker.index as usize, WantsToMelee { target });

    MeleeCombatSystem::run(&mut world, &mut log);

    assert!(world.damage_queue.get(target.index as usize).is_none());
    DamageSystem::run(&mut world);
    assert_eq!(world.combat_stats.get(target.index as usize).unwrap().hp, 25);
    assert!(world.melee_intents.get(attacker.index as usize).is_none());
    assert_eq!(log.entries.len(), 1);
    assert_eq!(log.entries[0], "Grunter is unable to hurt Knight");
}

#[test]
fn melee_hit_is_logged_with_the_amount() {
    let mut world = World::new();
    let mut log = GameLog::new();
    let target = named_fighter(&mut world, "Knight", stats(25, 3, 2));
    let attacker = named_fighter(&mut world, "Grunter", stats(16, 1, 10));
    world
        .melee_intents
        .insert(attacker.index as usize, WantsToMelee { target });
    MeleeCombatSystem::run(&mut world, &mut log);
    assert_eq!(log.entries[0], "Grunter hits Knight, for 7 hp.");
    assert_eq!(
        world.damage_queue.get(target.index as usize).unwrap().amount,
        vec![7]
    );
}

#[test]
fn dead_player_raises_game_over_but_is_not_deleted() {
    // The player at zero hit points is preserved; everything else dead is
    // swept away.
    let mut world = World::new();
    let mut log = GameLog::new();
    let player = named_fighter(&mut world, "Player", stats(30, 2, 5));
    world.players.insert(player.index as usize, Player);
    let monster = named_fighter(&mut world, "Rat", stats(5, 0, 1));

    // Both are out of hit points.
    world
        .combat_stats
        .insert(player.index as usize, CombatStats { max_hp: 30, hp: 0, defense: 2, power: 5 });
    world
        .combat_stats
        .insert(monster.index as usize, CombatStats { max_hp: 5, hp: 0, defense: 0, power: 1 });

    let game_over = delete_the_dead(&mut world, &mut log);
    assert!(game_over);
    assert!(world.is_live(player));
    assert!(!world.is_live(monster));
    assert!(world.combat_stats.get(player.index as usize).is_some());
    assert!(log.entries.iter().any(|m| m == "Rat is dead"));
}

#[test]
fn live_fighters_survive_the_death_sweep() {
    let mut world = World::new();
    let mut log = GameLog::new();
    let healthy = named_fighter(&mut world, "Survivor", stats(9, 0, 1));
    let game_over = delete_the_dead(&mut world, &mut log);
    assert!(!game_over);
    assert!(world.is_live(healthy));
}

#[test]
fn map_indexer_is_idempotent() {
    // Two runs with no movement in between build identical indices.
    let mut rng = Rng::seeded(4);
    let mut map = GameMap::new_map_rooms_and_corridors(&mut rng, 1);
    let mut world = World::new();
    let (cx, cy) = map.rooms[0].center();
    let blocker = named_fighter(&mut world, "Ogre", stats(16, 1, 4));
    world
        .blockers
        .insert(blocker.index as usize, dungeon_core::BlocksTile);
    world
        .positions
        .insert(blocker.index as usize, Position { x: cx, y: cy });
    let bystander = named_fighter(&mut world, "Cat", stats(2, 0, 0));
    world
        .positions
        .insert(bystander.index as usize, Position { x: cx, y: cy });

    MapIndexingSystem::run(&world, &mut map);
    let blocked_once = map.blocked.clone();
    let content_once = map.tile_content.clone();
    MapIndexingSystem::run(&world, &mut map);
    assert_eq!(map.blocked, blocked_once);
    assert_eq!(map.tile_content, content_once);

    // And the contents are right: both entities stand on the centroid tile.
    let idx = map.xy_idx(cx, cy);
    assert!(map.blocked[idx]);
    assert_eq!(map.tile_content[idx], vec![blocker, bystander]);
}

#[test]
fn suffer_damage_accumulator_collects_amounts() {
    let mut store = dungeon_core::Store::<SufferDamage>::new();
    let victim = Entity { index: 3, generation: 0 };
    SufferDamage::new_damage(&mut store, victim, 4);
    SufferDamage::new_damage(&mut store, victim, 9);
    assert_eq!(store.get(3).unwrap().amount, vec![4, 9]);
}
